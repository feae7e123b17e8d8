//! Which web origins a portal may load. A grant holds for the rest of the
//! session, and, when a consent store is in use and a saved workbook is
//! active, for that workbook in later sessions too. Grants are never written
//! into a workbook: a board you receive never arrives trusting a host.
//!
//! The store itself is a file the application reads and writes; this module
//! keeps its contents and says when they changed.

use vstd::prelude::*;
use crate::board_web_stills::key_set;

verus! {

/// The (workbook, origin) pairs a vector of string pairs holds.
pub open spec fn pair_set(v: Seq<(String, String)>) -> Set<(Seq<char>, Seq<char>)> {
    Set::new(
        |p: (Seq<char>, Seq<char>)|
            exists|i: int| 0 <= i < v.len() && (#[trigger] v[i]).0@ == p.0 && v[i].1@ == p.1,
    )
}

/// The origins saved for the workbook under `key` (none without a key).
pub open spec fn saved_for(saved: Set<(Seq<char>, Seq<char>)>, key: Option<Seq<char>>) -> Set<
    Seq<char>,
> {
    match key {
        Some(w) => Set::new(|o: Seq<char>| saved.contains((w, o))),
        None => Set::empty(),
    }
}

/// What a consent book holds.
pub struct ConsentModel {
    /// Origins granted this session.
    pub session: Set<Seq<char>>,
    /// Whether grants are kept for later sessions.
    pub store: bool,
    /// The kept (workbook, origin) grants.
    pub saved: Set<(Seq<char>, Seq<char>)>,
    /// The active saved workbook.
    pub workbook: Option<Seq<char>>,
}

/// The workbook whose kept grants apply: the active one, when a store is in
/// use.
pub open spec fn consent_key(m: ConsentModel) -> Option<Seq<char>> {
    if m.store {
        m.workbook
    } else {
        None
    }
}

/// Whether a page from `origin` may load.
pub open spec fn allows(m: ConsentModel, origin: Seq<char>) -> bool {
    m.session.contains(origin) || saved_for(m.saved, consent_key(m)).contains(origin)
}

/// A book at the start of a session: nothing granted, no store.
pub open spec fn fresh_model() -> ConsentModel {
    ConsentModel {
        session: Set::empty(),
        store: false,
        saved: Set::empty(),
        workbook: None,
    }
}

/// After granting `origin`.
pub open spec fn grant_model(m: ConsentModel, origin: Seq<char>) -> ConsentModel {
    ConsentModel {
        session: m.session.insert(origin),
        saved: match consent_key(m) {
            Some(w) => m.saved.insert((w, origin)),
            None => m.saved,
        },
        ..m
    }
}

/// After revoking `origin`.
pub open spec fn revoke_model(m: ConsentModel, origin: Seq<char>) -> ConsentModel {
    ConsentModel {
        session: m.session.remove(origin),
        saved: match consent_key(m) {
            Some(w) => m.saved.remove((w, origin)),
            None => m.saved,
        },
        ..m
    }
}

/// After loading the kept grants `saved` from the store.
pub open spec fn load_model(m: ConsentModel, saved: Set<(Seq<char>, Seq<char>)>) -> ConsentModel {
    ConsentModel { store: true, saved, ..m }
}

/// After the active workbook became `workbook`.
pub open spec fn open_model(m: ConsentModel, workbook: Option<Seq<char>>) -> ConsentModel {
    ConsentModel { workbook, ..m }
}

fn has_str(v: &Vec<String>, s: &String) -> (r: bool)
    ensures
        r == key_set(v@).contains(s@),
{
    let mut i: usize = 0;
    while i < v.len()
        invariant
            i <= v@.len(),
            forall|j: int| 0 <= j < i ==> (#[trigger] v@[j])@ != s@,
        decreases v.len() - i,
    {
        if v[i] == *s {
            assert(v@[i as int]@ == s@);
            return true;
        }
        i = i + 1;
    }
    false
}

fn add_str(v: &mut Vec<String>, s: &String)
    ensures
        key_set(final(v)@) == key_set(old(v)@).insert(s@),
{
    if has_str(v, s) {
        assert(key_set(v@) =~= key_set(v@).insert(s@));
        return;
    }
    let ghost before = v@;
    v.push(s.clone());
    assert forall|k: Seq<char>| #[trigger] key_set(v@).contains(k) == key_set(before).insert(
        s@,
    ).contains(k) by {
        if key_set(before).contains(k) {
            let j = choose|j: int| 0 <= j < before.len() && (#[trigger] before[j])@ == k;
            assert(v@[j] == before[j]);
        }
        if key_set(v@).contains(k) {
            let j = choose|j: int| 0 <= j < v@.len() && (#[trigger] v@[j])@ == k;
            if j < before.len() {
                assert(v@[j] == before[j]);
            }
        }
        if k == s@ {
            assert(v@[before.len() as int]@ == k);
        }
    }
    assert(key_set(v@) =~= key_set(before).insert(s@));
}

fn drop_str(v: &mut Vec<String>, s: &String)
    ensures
        key_set(final(v)@) == key_set(old(v)@).remove(s@),
{
    let mut kept: Vec<String> = Vec::new();
    let mut i: usize = 0;
    while i < v.len()
        invariant
            i <= v@.len(),
            forall|j: int| 0 <= j < kept@.len() ==> (#[trigger] kept@[j])@ != s@,
            forall|j: int|
                0 <= j < kept@.len() ==> key_set(v@).contains(#[trigger] kept@[j]@),
            forall|j: int|
                0 <= j < i && (#[trigger] v@[j])@ != s@ ==> key_set(kept@).contains(v@[j]@),
        decreases v.len() - i,
    {
        if v[i] != *s {
            let ghost before = kept@;
            kept.push(v[i].clone());
            assert(kept@[before.len() as int]@ == v@[i as int]@);
            assert forall|j: int|
                0 <= j < i + 1 && (#[trigger] v@[j])@ != s@ implies key_set(kept@).contains(
                v@[j]@,
            ) by {
                if j < i {
                    let t = choose|t: int| 0 <= t < before.len() && (#[trigger] before[t])@ == v@[j]@;
                    assert(kept@[t] == before[t]);
                }
            }
            assert forall|j: int| 0 <= j < kept@.len() implies key_set(v@).contains(
                #[trigger] kept@[j]@,
            ) by {
                if j == before.len() {
                    assert(v@[i as int]@ == kept@[j]@);
                } else {
                    assert(kept@[j] == before[j]);
                }
            }
        }
        i = i + 1;
    }
    let ghost old_v = v@;
    assert forall|k: Seq<char>| #[trigger] key_set(kept@).contains(k) == key_set(old_v).remove(
        s@,
    ).contains(k) by {
        if key_set(kept@).contains(k) {
            let j = choose|j: int| 0 <= j < kept@.len() && (#[trigger] kept@[j])@ == k;
            assert(key_set(old_v).contains(kept@[j]@));
        }
        if key_set(old_v).remove(s@).contains(k) {
            let j = choose|j: int| 0 <= j < old_v.len() && (#[trigger] old_v[j])@ == k;
            assert(v@[j]@ != s@);
        }
    }
    assert(key_set(kept@) =~= key_set(old_v).remove(s@));
    *v = kept;
}

fn has_pair(v: &Vec<(String, String)>, w: &String, o: &String) -> (r: bool)
    ensures
        r == pair_set(v@).contains((w@, o@)),
{
    let mut i: usize = 0;
    while i < v.len()
        invariant
            i <= v@.len(),
            forall|j: int| 0 <= j < i ==> !((#[trigger] v@[j]).0@ == w@ && v@[j].1@ == o@),
        decreases v.len() - i,
    {
        if v[i].0 == *w && v[i].1 == *o {
            assert(v@[i as int].0@ == w@ && v@[i as int].1@ == o@);
            return true;
        }
        i = i + 1;
    }
    false
}

fn add_pair(v: &mut Vec<(String, String)>, w: &String, o: &String)
    ensures
        pair_set(final(v)@) == pair_set(old(v)@).insert((w@, o@)),
{
    if has_pair(v, w, o) {
        assert(pair_set(v@) =~= pair_set(v@).insert((w@, o@)));
        return;
    }
    let ghost before = v@;
    v.push((w.clone(), o.clone()));
    assert forall|p: (Seq<char>, Seq<char>)| #[trigger] pair_set(v@).contains(p) == pair_set(
        before,
    ).insert((w@, o@)).contains(p) by {
        if pair_set(before).contains(p) {
            let j = choose|j: int|
                0 <= j < before.len() && (#[trigger] before[j]).0@ == p.0 && before[j].1@ == p.1;
            assert(v@[j] == before[j]);
        }
        if pair_set(v@).contains(p) {
            let j = choose|j: int|
                0 <= j < v@.len() && (#[trigger] v@[j]).0@ == p.0 && v@[j].1@ == p.1;
            if j < before.len() {
                assert(v@[j] == before[j]);
            }
        }
        if p == (w@, o@) {
            assert(v@[before.len() as int].0@ == p.0);
        }
    }
    assert(pair_set(v@) =~= pair_set(before).insert((w@, o@)));
}

fn drop_pair(v: &mut Vec<(String, String)>, w: &String, o: &String)
    ensures
        pair_set(final(v)@) == pair_set(old(v)@).remove((w@, o@)),
{
    let mut kept: Vec<(String, String)> = Vec::new();
    let mut i: usize = 0;
    while i < v.len()
        invariant
            i <= v@.len(),
            forall|j: int|
                0 <= j < kept@.len() ==> !((#[trigger] kept@[j]).0@ == w@ && kept@[j].1@ == o@),
            forall|j: int|
                0 <= j < kept@.len() ==> pair_set(v@).contains(
                    ((#[trigger] kept@[j]).0@, kept@[j].1@),
                ),
            forall|j: int|
                0 <= j < i && !((#[trigger] v@[j]).0@ == w@ && v@[j].1@ == o@) ==> pair_set(
                    kept@,
                ).contains((v@[j].0@, v@[j].1@)),
        decreases v.len() - i,
    {
        if !(v[i].0 == *w && v[i].1 == *o) {
            let ghost before = kept@;
            kept.push((v[i].0.clone(), v[i].1.clone()));
            assert(kept@[before.len() as int].0@ == v@[i as int].0@);
            assert(kept@[before.len() as int].1@ == v@[i as int].1@);
            assert forall|j: int|
                0 <= j < i + 1 && !((#[trigger] v@[j]).0@ == w@ && v@[j].1@ == o@) implies pair_set(
                kept@,
            ).contains((v@[j].0@, v@[j].1@)) by {
                if j < i {
                    let t = choose|t: int|
                        0 <= t < before.len() && (#[trigger] before[t]).0@ == v@[j].0@
                            && before[t].1@ == v@[j].1@;
                    assert(kept@[t] == before[t]);
                } else {
                    assert(kept@[before.len() as int].0@ == v@[j].0@);
                }
            }
            assert forall|j: int| 0 <= j < kept@.len() implies pair_set(v@).contains(
                ((#[trigger] kept@[j]).0@, kept@[j].1@),
            ) by {
                if j == before.len() {
                    assert(v@[i as int].0@ == kept@[j].0@ && v@[i as int].1@ == kept@[j].1@);
                } else {
                    assert(kept@[j] == before[j]);
                }
            }
        }
        i = i + 1;
    }
    let ghost old_v = v@;
    assert forall|p: (Seq<char>, Seq<char>)| #[trigger] pair_set(kept@).contains(p) == pair_set(
        old_v,
    ).remove((w@, o@)).contains(p) by {
        if pair_set(kept@).contains(p) {
            let j = choose|j: int|
                0 <= j < kept@.len() && (#[trigger] kept@[j]).0@ == p.0 && kept@[j].1@ == p.1;
            assert(pair_set(old_v).contains((kept@[j].0@, kept@[j].1@)));
        }
        if pair_set(old_v).remove((w@, o@)).contains(p) {
            let j = choose|j: int|
                0 <= j < old_v.len() && (#[trigger] old_v[j]).0@ == p.0 && old_v[j].1@ == p.1;
            assert(!(v@[j].0@ == w@ && v@[j].1@ == o@));
        }
    }
    assert(pair_set(kept@) =~= pair_set(old_v).remove((w@, o@)));
    *v = kept;
}

/// The origins `v` holds for workbook `w`.
fn origins_for(v: &Vec<(String, String)>, w: &String) -> (r: Vec<String>)
    ensures
        key_set(r@) == saved_for(pair_set(v@), Some(w@)),
{
    let mut r: Vec<String> = Vec::new();
    let mut i: usize = 0;
    while i < v.len()
        invariant
            i <= v@.len(),
            forall|j: int|
                0 <= j < r@.len() ==> pair_set(v@).contains((w@, (#[trigger] r@[j])@)),
            forall|j: int|
                0 <= j < i && (#[trigger] v@[j]).0@ == w@ ==> key_set(r@).contains(v@[j].1@),
        decreases v.len() - i,
    {
        if v[i].0 == *w {
            let ghost before = r@;
            r.push(v[i].1.clone());
            assert(r@[before.len() as int]@ == v@[i as int].1@);
            assert forall|j: int|
                0 <= j < i + 1 && (#[trigger] v@[j]).0@ == w@ implies key_set(r@).contains(
                v@[j].1@,
            ) by {
                if j < i {
                    let t = choose|t: int| 0 <= t < before.len() && (#[trigger] before[t])@ == v@[j].1@;
                    assert(r@[t] == before[t]);
                }
            }
            assert forall|j: int| 0 <= j < r@.len() implies pair_set(v@).contains(
                (w@, (#[trigger] r@[j])@),
            ) by {
                if j == before.len() {
                    assert(v@[i as int].0@ == w@ && v@[i as int].1@ == r@[j]@);
                } else {
                    assert(r@[j] == before[j]);
                }
            }
        }
        i = i + 1;
    }
    assert forall|o: Seq<char>| #[trigger] key_set(r@).contains(o) == saved_for(
        pair_set(v@),
        Some(w@),
    ).contains(o) by {
        if key_set(r@).contains(o) {
            let j = choose|j: int| 0 <= j < r@.len() && (#[trigger] r@[j])@ == o;
            assert(pair_set(v@).contains((w@, r@[j]@)));
        }
        if pair_set(v@).contains((w@, o)) {
            let j = choose|j: int|
                0 <= j < v@.len() && (#[trigger] v@[j]).0@ == w@ && v@[j].1@ == o;
            assert(key_set(r@).contains(v@[j].1@));
        }
    }
    assert(key_set(r@) =~= saved_for(pair_set(v@), Some(w@)));
    r
}

/// The origins a page may come from: granted this session, or kept for the
/// active workbook.
pub struct WebConsent {
    session: Vec<String>,
    store: bool,
    saved: Vec<(String, String)>,
    workbook: Option<String>,
    /// The origins kept for the active workbook, refreshed only when the
    /// workbook or the store changes, so the per-frame check never rebuilds
    /// it.
    workbook_consent: Vec<String>,
}

impl View for WebConsent {
    type V = ConsentModel;

    closed spec fn view(&self) -> ConsentModel {
        ConsentModel {
            session: key_set(self.session@),
            store: self.store,
            saved: pair_set(self.saved@),
            workbook: match self.workbook {
                Some(w) => Some(w@),
                None => None,
            },
        }
    }
}

impl WebConsent {
    /// The cached origins are those kept for the active workbook.
    pub closed spec fn wf(&self) -> bool {
        key_set(self.workbook_consent@) == saved_for(self@.saved, consent_key(self@))
    }

    fn refresh(&mut self)
        ensures
            final(self)@ == old(self)@,
            final(self).wf(),
    {
        let key = if self.store {
            match &self.workbook {
                Some(w) => Some(w.clone()),
                None => None,
            }
        } else {
            None
        };
        match key {
            Some(w) => {
                self.workbook_consent = origins_for(&self.saved, &w);
            },
            None => {
                self.workbook_consent = Vec::new();
                assert(key_set(self.workbook_consent@) =~= Set::empty());
            },
        }
    }

    /// A book for a new session: nothing granted, no store.
    pub fn new() -> (c: Self)
        ensures
            c.wf(),
            c@ == fresh_model(),
    {
        let c = WebConsent {
            session: Vec::new(),
            store: false,
            saved: Vec::new(),
            workbook: None,
            workbook_consent: Vec::new(),
        };
        assert(key_set(c.session@) =~= Set::empty());
        assert(pair_set(c.saved@) =~= Set::empty());
        assert(key_set(c.workbook_consent@) =~= Set::empty());
        c
    }

    /// Whether a page from `origin` may load.
    pub fn has_consent(&self, origin: &str) -> (r: bool)
        requires
            self.wf(),
        ensures
            r == allows(self@, origin@),
    {
        let o = origin.to_owned();
        has_str(&self.session, &o) || has_str(&self.workbook_consent, &o)
    }

    /// Permit `origin`: for this session, and for the active workbook in
    /// later sessions when a store is in use. Returns whether the kept grants
    /// changed, so the store must be written.
    pub fn grant_consent(&mut self, origin: &str) -> (save: bool)
        requires
            old(self).wf(),
        ensures
            final(self).wf(),
            final(self)@ == grant_model(old(self)@, origin@),
            save == consent_key(old(self)@) is Some,
    {
        let o = origin.to_owned();
        add_str(&mut self.session, &o);
        if self.store {
            if let Some(w) = &self.workbook {
                let w = w.clone();
                add_pair(&mut self.saved, &w, &o);
                add_str(&mut self.workbook_consent, &o);
                assert(key_set(self.workbook_consent@) =~= saved_for(
                    self@.saved,
                    consent_key(self@),
                ));
                return true;
            }
        }
        false
    }

    /// Withdraw `origin`: from this session and, when a store is in use, from
    /// the active workbook's kept grants. Returns whether the kept grants
    /// changed, so the store must be written.
    pub fn revoke_consent(&mut self, origin: &str) -> (save: bool)
        requires
            old(self).wf(),
        ensures
            final(self).wf(),
            final(self)@ == revoke_model(old(self)@, origin@),
            save == consent_key(old(self)@) is Some,
    {
        let o = origin.to_owned();
        drop_str(&mut self.session, &o);
        if self.store {
            if let Some(w) = &self.workbook {
                let w = w.clone();
                drop_pair(&mut self.saved, &w, &o);
                drop_str(&mut self.workbook_consent, &o);
                assert(key_set(self.workbook_consent@) =~= saved_for(
                    self@.saved,
                    consent_key(self@),
                ));
                return true;
            }
        }
        false
    }

    /// Keep grants across sessions, starting from the (workbook, origin)
    /// pairs the store already holds.
    pub fn use_consent_file(&mut self, saved: Vec<(String, String)>)
        requires
            old(self).wf(),
        ensures
            final(self).wf(),
            final(self)@ == load_model(old(self)@, pair_set(saved@)),
    {
        self.saved = saved;
        self.store = true;
        self.refresh();
    }

    /// Follow the active workbook (`None` for one not yet saved).
    pub fn set_consent_workbook(&mut self, workbook: Option<&str>)
        requires
            old(self).wf(),
        ensures
            final(self).wf(),
            final(self)@ == open_model(
                old(self)@,
                match workbook {
                    Some(w) => Some(w@),
                    None => None,
                },
            ),
    {
        let same = match (&self.workbook, workbook) {
            (Some(a), Some(b)) => *a == b.to_owned(),
            (None, None) => true,
            _ => false,
        };
        if same {
            return;
        }
        self.workbook = match workbook {
            Some(w) => Some(w.to_owned()),
            None => None,
        };
        self.refresh();
    }

    /// The kept grants, for writing the store.
    pub fn saved_grants(&self) -> (r: Vec<(String, String)>)
        ensures
            pair_set(r@) == self@.saved,
    {
        let mut r: Vec<(String, String)> = Vec::new();
        let mut i: usize = 0;
        while i < self.saved.len()
            invariant
                i <= self.saved@.len(),
                r@.len() == i,
                forall|j: int|
                    0 <= j < i ==> (#[trigger] r@[j]).0@ == self.saved@[j].0@ && r@[j].1@
                        == self.saved@[j].1@,
            decreases self.saved.len() - i,
        {
            r.push((self.saved[i].0.clone(), self.saved[i].1.clone()));
            i = i + 1;
        }
        assert forall|p: (Seq<char>, Seq<char>)| #[trigger] pair_set(r@).contains(p) == pair_set(
            self.saved@,
        ).contains(p) by {
            if pair_set(r@).contains(p) {
                let j = choose|j: int|
                    0 <= j < r@.len() && (#[trigger] r@[j]).0@ == p.0 && r@[j].1@ == p.1;
                assert(self.saved@[j].0@ == p.0);
            }
            if pair_set(self.saved@).contains(p) {
                let j = choose|j: int|
                    0 <= j < self.saved@.len() && (#[trigger] self.saved@[j]).0@ == p.0
                        && self.saved@[j].1@ == p.1;
                assert(r@[j].0@ == p.0);
            }
        }
        assert(pair_set(r@) =~= self@.saved);
        r
    }
}

/// A granted origin is allowed at once.
pub proof fn a_grant_allows_the_origin(m: ConsentModel, origin: Seq<char>)
    ensures
        allows(grant_model(m, origin), origin),
{
}

/// A revoked origin is refused at once, whatever was granted before.
pub proof fn a_revoke_refuses_the_origin(m: ConsentModel, origin: Seq<char>)
    ensures
        !allows(revoke_model(m, origin), origin),
{
}

/// A grant kept in the store comes back in a later session for the same
/// workbook, and for no other workbook it was not already kept for.
pub proof fn kept_grants_return_for_their_workbook_only(
    m: ConsentModel,
    origin: Seq<char>,
    workbook: Seq<char>,
    later: Seq<char>,
)
    requires
        m.store,
        m.workbook == Some(workbook),
    ensures
        allows(
            open_model(load_model(fresh_model(), grant_model(m, origin).saved), Some(later)),
            origin,
        ) == (later == workbook || m.saved.contains((later, origin))),
{
}

/// Granting or revoking one origin leaves every other origin as it was.
pub proof fn consent_is_per_origin(m: ConsentModel, origin: Seq<char>, other: Seq<char>)
    requires
        origin != other,
    ensures
        allows(grant_model(m, origin), other) == allows(m, other),
        allows(revoke_model(m, origin), other) == allows(m, other),
{
    let k = consent_key(m);
    if k is Some {
        let w = k->0;
        assert(saved_for(m.saved.insert((w, origin)), k) =~= saved_for(m.saved, k).insert(origin));
        assert(saved_for(m.saved.remove((w, origin)), k) =~= saved_for(m.saved, k).remove(origin));
    }
}

/// Without a store nothing is inherited: a new session trusts no origin,
/// whichever workbook it opens.
pub proof fn no_store_no_inherited_trust(workbook: Option<Seq<char>>, origin: Seq<char>)
    ensures
        !allows(open_model(fresh_model(), workbook), origin),
{
}

/// A revoke kept in the store holds in later sessions of that workbook.
pub proof fn a_kept_revoke_holds_later(m: ConsentModel, origin: Seq<char>, workbook: Seq<char>)
    requires
        m.store,
        m.workbook == Some(workbook),
    ensures
        !allows(
            open_model(load_model(fresh_model(), revoke_model(m, origin).saved), Some(workbook)),
            origin,
        ),
{
}

} // verus!
