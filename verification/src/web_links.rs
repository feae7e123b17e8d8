//! The tables a dashboard page receives over its wires: in which order the
//! wires are read, and under which input name each table arrives.
//!
//! Finding the wires in the scene and reading the tables stays with the
//! application; it hands this module one record per table wire.

use vstd::prelude::*;
use crate::board_web_stills::{
    distinct_keys, distinct_keys_len, key_set, position, push_distinct,
};
use crate::text::{decimal, decimal_chars, push_char, push_chars, push_str};

verus! {

/// One wire that feeds a table into the page.
#[derive(Debug, Clone)]
pub struct TableWire {
    /// Where the wire sorts among the page's inputs; empty for none.
    pub order: Vec<u64>,
    /// The input name the wire asks for, if any.
    pub slot: Option<String>,
    /// The wire's own node id, its order when it gives none.
    pub wire: u64,
    /// The node whose table the wire carries.
    pub source: u64,
}

/// `a` sorts before `b`: the first differing element is smaller, or `a` is a
/// proper prefix of `b` (the order of `Vec<u64>`).
pub open spec fn lex_lt(a: Seq<u64>, b: Seq<u64>) -> bool
    decreases a.len(),
{
    if a.len() == 0 {
        b.len() > 0
    } else if b.len() == 0 {
        false
    } else if a[0] != b[0] {
        a[0] < b[0]
    } else {
        lex_lt(a.drop_first(), b.drop_first())
    }
}

proof fn lex_total(a: Seq<u64>, b: Seq<u64>)
    ensures
        lex_lt(a, b) || lex_lt(b, a) || a == b,
    decreases a.len(),
{
    if a.len() > 0 && b.len() > 0 && a[0] == b[0] {
        lex_total(a.drop_first(), b.drop_first());
        if a.drop_first() == b.drop_first() {
            assert(a =~= seq![a[0]] + a.drop_first());
            assert(b =~= seq![b[0]] + b.drop_first());
        }
    } else if a.len() == 0 && b.len() == 0 {
        assert(a =~= b);
    }
}

proof fn lex_trans(a: Seq<u64>, b: Seq<u64>, c: Seq<u64>)
    requires
        lex_lt(a, b),
        lex_lt(b, c),
    ensures
        lex_lt(a, c),
    decreases a.len(),
{
    if a.len() > 0 && b.len() > 0 && c.len() > 0 && a[0] == b[0] && b[0] == c[0] {
        lex_trans(a.drop_first(), b.drop_first(), c.drop_first());
    }
}

/// The order a wire sorts by: its own, or its node id when it gives none.
pub open spec fn wire_key(w: TableWire) -> Seq<u64> {
    if w.order@.len() == 0 {
        seq![w.wire]
    } else {
        w.order@
    }
}

/// Wire `a` is read before wire `b`: it sorts first, or sorts the same and
/// was listed first.
pub open spec fn read_before(ws: Seq<TableWire>, a: int, b: int) -> bool {
    lex_lt(wire_key(ws[a]), wire_key(ws[b])) || (wire_key(ws[a]) == wire_key(ws[b]) && a < b)
}

/// `order` reads each of the wires `0..n` once, by key, ties in listed order.
pub open spec fn read_order(ws: Seq<TableWire>, order: Seq<usize>, n: int) -> bool {
    &&& order.len() == n
    &&& forall|p: int| 0 <= p < order.len() ==> #[trigger] order[p] < n
    &&& forall|p: int, q: int|
        0 <= p < q < order.len() ==> read_before(ws, #[trigger] order[p] as int, #[trigger] order[q] as int)
}

fn key_of(w: &TableWire) -> (k: Vec<u64>)
    ensures
        k@ == wire_key(*w),
{
    if w.order.len() == 0 {
        let mut k: Vec<u64> = Vec::new();
        k.push(w.wire);
        assert(k@ =~= seq![w.wire]);
        k
    } else {
        w.order.clone()
    }
}

fn lex_less(a: &Vec<u64>, b: &Vec<u64>) -> (r: bool)
    ensures
        r == lex_lt(a@, b@),
{
    let mut i: usize = 0;
    assert(a@.skip(0) =~= a@);
    assert(b@.skip(0) =~= b@);
    while i < a.len() && i < b.len()
        invariant
            i <= a@.len(),
            i <= b@.len(),
            forall|j: int| 0 <= j < i ==> a@[j] == b@[j],
            lex_lt(a@, b@) == lex_lt(a@.skip(i as int), b@.skip(i as int)),
        decreases a.len() - i,
    {
        if a[i] != b[i] {
            return a[i] < b[i];
        }
        assert(a@.skip(i as int).drop_first() =~= a@.skip(i + 1));
        assert(b@.skip(i as int).drop_first() =~= b@.skip(i + 1));
        i = i + 1;
    }
    i == a.len() && i < b.len()
}

/// The order in which the wires are read: by key, ties in listed order.
pub fn read_order_of(ws: &Vec<TableWire>) -> (order: Vec<usize>)
    ensures
        read_order(ws@, order@, ws@.len() as int),
{
    let mut keys: Vec<Vec<u64>> = Vec::new();
    let mut i: usize = 0;
    while i < ws.len()
        invariant
            i <= ws@.len(),
            keys@.len() == i,
            forall|j: int| 0 <= j < i ==> (#[trigger] keys@[j])@ == wire_key(ws@[j]),
        decreases ws.len() - i,
    {
        let k = key_of(&ws[i]);
        keys.push(k);
        i = i + 1;
    }
    let mut order: Vec<usize> = Vec::new();
    let mut i: usize = 0;
    while i < ws.len()
        invariant
            i <= ws@.len(),
            keys@.len() == ws@.len(),
            forall|j: int| 0 <= j < ws@.len() ==> (#[trigger] keys@[j])@ == wire_key(ws@[j]),
            read_order(ws@, order@, i as int),
        decreases ws.len() - i,
    {
        let mut k: usize = 0;
        while k < order.len() && !lex_less(&keys[i], &keys[order[k]])
            invariant
                k <= order@.len(),
                i < ws@.len(),
                keys@.len() == ws@.len(),
                forall|j: int| 0 <= j < ws@.len() ==> (#[trigger] keys@[j])@ == wire_key(ws@[j]),
                read_order(ws@, order@, i as int),
                forall|p: int|
                    0 <= p < k ==> !lex_lt(wire_key(ws@[i as int]), wire_key(ws@[#[trigger] order@[p] as int])),
            decreases order.len() - k,
        {
            k = k + 1;
        }
        let ghost before = order@;
        let ghost ki = wire_key(ws@[i as int]);
        order.insert(k, i);
        assert(order@ == before.insert(k as int, i));
        assert forall|p: int, q: int| 0 <= p < q < order@.len() implies read_before(
            ws@,
            #[trigger] order@[p] as int,
            #[trigger] order@[q] as int,
        ) by {
            if q < k {
                assert(order@[p] == before[p] && order@[q] == before[q]);
            } else if q == k {
                assert(order@[p] == before[p]);
                let kp = wire_key(ws@[before[p] as int]);
                assert(!lex_lt(ki, kp));
                lex_total(ki, kp);
                assert(before[p] < i);
            } else if p > k {
                assert(order@[p] == before[p - 1] && order@[q] == before[q - 1]);
            } else if p == k {
                assert(order@[q] == before[q - 1]);
                let kk = wire_key(ws@[before[k as int] as int]);
                let kq = wire_key(ws@[before[q - 1] as int]);
                assert(k < before.len());
                assert(lex_lt(ki, kk));
                if q - 1 > k {
                    assert(read_before(ws@, before[k as int] as int, before[q - 1] as int));
                    if lex_lt(kk, kq) {
                        lex_trans(ki, kk, kq);
                    }
                }
            } else {
                assert(order@[p] == before[p] && order@[q] == before[q - 1]);
            }
        }
        assert forall|p: int| 0 <= p < order@.len() implies #[trigger] order@[p] < i + 1 by {
            if p < k {
                assert(order@[p] == before[p]);
            } else if p > k {
                assert(order@[p] == before[p - 1]);
            }
        }
        i = i + 1;
    }
    order
}

/// A page reads a wire that sorts earlier before one that sorts later, and
/// of two wires that sort alike the one listed first.
pub proof fn earlier_sorting_wires_are_read_first(ws: Seq<TableWire>, order: Seq<usize>, p: int, q: int)
    requires
        read_order(ws, order, ws.len() as int),
        0 <= p < order.len(),
        0 <= q < order.len(),
    ensures
        lex_lt(wire_key(ws[order[p] as int]), wire_key(ws[order[q] as int])) ==> p < q,
        wire_key(ws[order[p] as int]) == wire_key(ws[order[q] as int]) && order[p] < order[q]
            ==> p < q,
        p != q ==> order[p] != order[q],
{
    if q < p {
        assert(read_before(ws, order[q] as int, order[p] as int));
        if lex_lt(wire_key(ws[order[p] as int]), wire_key(ws[order[q] as int])) {
            lex_asym(wire_key(ws[order[p] as int]), wire_key(ws[order[q] as int]));
        }
    }
    if p < q {
        assert(read_before(ws, order[p] as int, order[q] as int));
        lex_irrefl(wire_key(ws[order[p] as int]));
    }
    lex_irrefl(wire_key(ws[order[p] as int]));
    lex_irrefl(wire_key(ws[order[q] as int]));
}

proof fn lex_irrefl(a: Seq<u64>)
    ensures
        !lex_lt(a, a),
    decreases a.len(),
{
    if a.len() > 0 {
        lex_irrefl(a.drop_first());
    }
}

proof fn lex_asym(a: Seq<u64>, b: Seq<u64>)
    requires
        lex_lt(a, b),
    ensures
        !lex_lt(b, a),
    decreases a.len(),
{
    if a.len() > 0 && b.len() > 0 && a[0] == b[0] {
        lex_asym(a.drop_first(), b.drop_first());
    }
}

/// The name a wire asks for: its slot, or `data` when it names none.
pub open spec fn base_slot(w: TableWire) -> Seq<char> {
    match w.slot {
        Some(s) => if s@.len() > 0 {
            s@
        } else {
            seq!['d', 'a', 't', 'a']
        },
        None => seq!['d', 'a', 't', 'a'],
    }
}

/// Input names for the asked-for names `names`, in reading order, and the
/// set of names handed out: a name already handed out gets `-` and one more
/// than the count handed out so far appended.
pub open spec fn assign_slots(names: Seq<Seq<char>>) -> (Seq<Seq<char>>, Set<Seq<char>>)
    decreases names.len(),
{
    if names.len() == 0 {
        (Seq::empty(), Set::empty())
    } else {
        let (given, used) = assign_slots(names.drop_last());
        let n = names.last();
        let m = if used.contains(n) {
            n + seq!['-'] + decimal((used.len() + 1) as nat)
        } else {
            n
        };
        (given.push(m), used.insert(m))
    }
}

proof fn assign_slots_finite(names: Seq<Seq<char>>)
    ensures
        assign_slots(names).1.finite(),
        assign_slots(names).0.len() == names.len(),
        assign_slots(names).1.len() <= names.len(),
    decreases names.len(),
{
    if names.len() > 0 {
        assign_slots_finite(names.drop_last());
    }
}

/// Each input keeps the name its wire asked for: a name not handed out yet
/// is given as it is, and a name already taken gets `-` and a number after
/// it; every name handed out is remembered.
pub proof fn each_input_keeps_the_name_it_asked_for(names: Seq<Seq<char>>)
    ensures
        assign_slots(names).0.len() == names.len(),
        forall|j: int|
            0 <= j < names.len() ==> (#[trigger] assign_slots(names).0[j]).take(names[j].len() as int)
                == names[j],
        forall|j: int|
            0 <= j < names.len() ==> assign_slots(names).1.contains(#[trigger] assign_slots(names).0[j]),
        names.len() > 0 && !assign_slots(names.drop_last()).1.contains(names.last())
            ==> assign_slots(names).0.last() == names.last(),
        names.len() > 0 && assign_slots(names.drop_last()).1.contains(names.last())
            ==> assign_slots(names).0.last() != names.last() && assign_slots(names).0.last()[names.last().len() as int] == '-',
    decreases names.len(),
{
    assign_slots_finite(names);
    if names.len() > 0 {
        let t = names.drop_last();
        each_input_keeps_the_name_it_asked_for(t);
        assign_slots_finite(t);
        let (given, used) = assign_slots(t);
        let n = names.last();
        let g = assign_slots(names).0;
        let m = g.last();
        assert(m.take(n.len() as int) =~= n);
        assert forall|j: int| 0 <= j < names.len() implies (#[trigger] g[j]).take(names[j].len() as int)
            == names[j] by {
            if j < t.len() {
                assert(g[j] == given[j]);
                assert(names[j] == t[j]);
            }
        }
        assert forall|j: int| 0 <= j < names.len() implies assign_slots(names).1.contains(#[trigger] g[j]) by {
            if j < t.len() {
                assert(g[j] == given[j]);
            }
        }
        if used.contains(n) {
            assert(m.len() > n.len());
        }
    }
}

fn base_slot_of(w: &TableWire) -> (s: String)
    ensures
        s@ == base_slot(*w),
{
    match &w.slot {
        Some(s) => {
            if !s.as_str().is_empty() {
                return s.clone();
            }
        },
        None => {},
    }
    let mut d = String::new();
    push_char(&mut d, 'd');
    push_char(&mut d, 'a');
    push_char(&mut d, 't');
    push_char(&mut d, 'a');
    assert(d@ =~= seq!['d', 'a', 't', 'a']);
    d
}

/// How a page's table inputs are laid out: the order the wires are read
/// in, and the input name each one arrives under, in that order.
pub fn link_slots(ws: &Vec<TableWire>) -> (r: (Vec<usize>, Vec<String>))
    ensures
        read_order(ws@, r.0@, ws@.len() as int),
        r.1@.len() == ws@.len(),
        forall|j: int|
            0 <= j < r.1@.len() ==> (#[trigger] r.1@[j])@ == assign_slots(
                Seq::new(ws@.len(), |p: int| base_slot(ws@[r.0@[p] as int])),
            ).0[j],
{
    let order = read_order_of(ws);
    let ghost bases = Seq::new(ws@.len(), |p: int| base_slot(ws@[order@[p] as int]));
    let mut names: Vec<String> = Vec::new();
    let mut used: Vec<String> = Vec::new();
    let mut j: usize = 0;
    while j < order.len()
        invariant
            j <= order@.len(),
            read_order(ws@, order@, ws@.len() as int),
            bases == Seq::new(ws@.len(), |p: int| base_slot(ws@[order@[p] as int])),
            names@.len() == j,
            forall|t: int|
                0 <= t < j ==> (#[trigger] names@[t])@ == assign_slots(bases.take(j as int)).0[t],
            distinct_keys(used@),
            key_set(used@) == assign_slots(bases.take(j as int)).1,
        decreases order.len() - j,
    {
        let ghost prev = bases.take(j as int);
        let ghost pair = assign_slots(prev);
        assert(bases.take(j as int + 1).drop_last() =~= prev);
        assert(bases.take(j as int + 1).last() == bases[j as int]);
        let n = base_slot_of(&ws[order[j]]);
        proof {
            distinct_keys_len(used@);
            assign_slots_finite(prev);
        }
        let slot = match position(&used, &n) {
            Some(_) => {
                let mut s = n.clone();
                push_char(&mut s, '-');
                let count = used.len() as u64 + 1;
                let digits = decimal_chars(count);
                push_chars(&mut s, &digits);
                assert(s@ =~= n@ + seq!['-'] + decimal((pair.1.len() + 1) as nat));
                s
            },
            None => n.clone(),
        };
        proof {
            if key_set(used@).contains(slot@) {
                assert(key_set(used@).insert(slot@) =~= key_set(used@));
            } else {
                push_distinct(used@, slot);
            }
        }
        match position(&used, &slot) {
            Some(_) => {
                assert(key_set(used@).insert(slot@) =~= key_set(used@));
            },
            None => {
                proof {
                    push_distinct(used@, slot);
                }
                used.push(slot.clone());
            },
        }
        names.push(slot);
        assert forall|t: int| 0 <= t < j + 1 implies (#[trigger] names@[t])@ == assign_slots(
            bases.take(j as int + 1),
        ).0[t] by {
            if t < j {
                assert(assign_slots(bases.take(j as int + 1)).0 == pair.0.push(names@[j as int]@));
            }
        }
        j = j + 1;
    }
    assert(bases.take(order@.len() as int) =~= bases);
    (order, names)
}

} // verus!
