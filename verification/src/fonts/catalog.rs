//! Path-keyed maps: the candidate font files (path -> user-installed) and
//! the catalogue itself (path -> faces).  Discovery merges two sources,
//! deduplicated by path: the OS registry, where the first sighting of a path
//! keeps its classification, and the configured `font_dirs`, whose entries
//! override it.

use vstd::prelude::*;
use crate::fonts::FaceInfo;
use crate::fonts::dirs::{classify_user_installed, spec_user_installed};
use crate::fonts::parser::{is_font_file, spec_is_font_file};
use crate::paths::{components, components_eq, path_components};
use crate::text::{bytes_view, copy_bytes, spec_utf8_lossy, utf8_lossy};
use crate::util::TargetOs;

verus! {

/// A map from paths to values.  Paths are compared the way `PathBuf`
/// compares them, component by component, so `/a//b` and `/a/b` are one
/// key; the spelling first inserted is the one kept.
pub struct PathMap<V> {
    entries: Vec<(Vec<Vec<u8>>, Vec<u8>, V)>,
}

pub open spec fn comps_view(c: Vec<Vec<u8>>) -> Seq<Seq<u8>> {
    bytes_view(c@)
}

pub open spec fn entries_wf<V>(e: Seq<(Vec<Vec<u8>>, Vec<u8>, V)>) -> bool {
    &&& forall|i: int| 0 <= i < e.len() ==> comps_view((#[trigger] e[i]).0) == components(e[i].1@)
    &&& forall|i: int, j: int|
        0 <= i < j < e.len() ==> comps_view((#[trigger] e[i]).0) != comps_view((#[trigger] e[j]).0)
}

/// Keyed by components; each value is the stored spelling of the path and
/// the value for it.
pub open spec fn entries_map<V>(e: Seq<(Vec<Vec<u8>>, Vec<u8>, V)>) -> Map<Seq<Seq<u8>>, (Seq<u8>, V)> {
    Map::new(
        |k: Seq<Seq<u8>>| exists|i: int| 0 <= i < e.len() && comps_view((#[trigger] e[i]).0) == k,
        |k: Seq<Seq<u8>>|
            {
                let i = choose|i: int| 0 <= i < e.len() && comps_view((#[trigger] e[i]).0) == k;
                (e[i].1@, e[i].2)
            },
    )
}

proof fn lemma_entries_map_at<V>(e: Seq<(Vec<Vec<u8>>, Vec<u8>, V)>, i: int)
    requires
        entries_wf(e),
        0 <= i < e.len(),
    ensures
        entries_map(e).contains_key(comps_view(e[i].0)),
        entries_map(e)[comps_view(e[i].0)] == (e[i].1@, e[i].2),
{
    let k = comps_view(e[i].0);
    assert(exists|j: int| 0 <= j < e.len() && comps_view((#[trigger] e[j]).0) == k);
    let j = choose|j: int| 0 <= j < e.len() && comps_view((#[trigger] e[j]).0) == k;
    if j != i {
        if j < i {
            assert(comps_view(e[j].0) != comps_view(e[i].0));
        } else {
            assert(comps_view(e[i].0) != comps_view(e[j].0));
        }
    }
}

impl<V> PathMap<V> {
    #[verifier::type_invariant]
    spec fn wf(&self) -> bool {
        entries_wf(self.entries@)
    }

    pub closed spec fn view(&self) -> Map<Seq<Seq<u8>>, (Seq<u8>, V)> {
        entries_map(self.entries@)
    }

    /// The entries in insertion order.
    pub closed spec fn entry_seq(&self) -> Seq<(Vec<Vec<u8>>, Vec<u8>, V)> {
        self.entries@
    }

    pub fn new() -> (m: Self)
        ensures
            m.view() == Map::<Seq<Seq<u8>>, (Seq<u8>, V)>::empty(),
    {
        let m = PathMap { entries: Vec::new() };
        assert(m.view() =~= Map::<Seq<Seq<u8>>, (Seq<u8>, V)>::empty());
        m
    }

    /// The position of the entry with these components, if any.
    fn find(&self, comps: &Vec<Vec<u8>>) -> (res: Option<usize>)
        ensures
            match res {
                Some(i) => i < self.entries@.len() && comps_view(self.entries@[i as int].0)
                    == comps_view(*comps),
                None => forall|i: int|
                    0 <= i < self.entries@.len() ==> comps_view((#[trigger] self.entries@[i]).0)
                        != comps_view(*comps),
            },
    {
        for i in 0..self.entries.len()
            invariant
                forall|j: int|
                    0 <= j < i ==> comps_view((#[trigger] self.entries@[j]).0) != comps_view(*comps),
        {
            if components_eq(&self.entries[i].0, comps) {
                return Some(i);
            }
        }
        None
    }

    /// The stored spelling and value for a path.
    pub fn get(&self, key: &[u8]) -> (res: Option<(&Vec<u8>, &V)>)
        ensures
            match res {
                Some((k, v)) => self.view().contains_key(components(key@)) && self.view()[components(
                    key@,
                )] == (k@, *v),
                None => !self.view().contains_key(components(key@)),
            },
    {
        proof {
            use_type_invariant(self);
        }
        let comps = path_components(key);
        match self.find(&comps) {
            Some(i) => {
                proof {
                    lemma_entries_map_at(self.entries@, i as int);
                }
                Some((&self.entries[i].1, &self.entries[i].2))
            },
            None => None,
        }
    }

    /// Set the value for a path; a path already present keeps its spelling.
    pub fn insert(&mut self, key: Vec<u8>, value: V)
        ensures
            final(self).view() == old(self).view().insert(
                components(key@),
                (
                    if old(self).view().contains_key(components(key@)) {
                        old(self).view()[components(key@)].0
                    } else {
                        key@
                    },
                    value,
                ),
            ),
    {
        proof {
            use_type_invariant(&*self);
        }
        let ghost old_e = self.entries@;
        let comps = path_components(key.as_slice());
        let ghost k = comps_view(comps);
        match self.find(&comps) {
            Some(i) => {
                proof {
                    lemma_entries_map_at(old_e, i as int);
                }
                let mut entries: Vec<(Vec<Vec<u8>>, Vec<u8>, V)> = Vec::new();
                std::mem::swap(&mut entries, &mut self.entries);
                let ghost kept = entries@[i as int].1@;
                let (c, stored, _) = entries.remove(i);
                let ghost removed_e = entries@;
                entries.insert(i, (c, stored, value));
                let ghost new_e = entries@;
                assert(new_e =~= old_e.update(i as int, new_e[i as int]));
                assert(entries_wf(new_e)) by {
                    assert forall|a: int, b: int| 0 <= a < b < new_e.len() implies comps_view(
                        (#[trigger] new_e[a]).0,
                    ) != comps_view((#[trigger] new_e[b]).0) by {
                        assert(comps_view(old_e[a].0) != comps_view(old_e[b].0));
                    }
                    assert forall|a: int| 0 <= a < new_e.len() implies comps_view(
                        (#[trigger] new_e[a]).0,
                    ) == components(new_e[a].1@) by {
                        assert(comps_view(old_e[a].0) == components(old_e[a].1@));
                    }
                }
                proof {
                    lemma_replace(old_e, new_e, i as int, k, (kept, value));
                }
                self.entries = entries;
            },
            None => {
                let mut entries: Vec<(Vec<Vec<u8>>, Vec<u8>, V)> = Vec::new();
                std::mem::swap(&mut entries, &mut self.entries);
                entries.push((comps, key, value));
                let ghost new_e = entries@;
                assert(entries_wf(new_e)) by {
                    assert forall|a: int, b: int| 0 <= a < b < new_e.len() implies comps_view(
                        (#[trigger] new_e[a]).0,
                    ) != comps_view((#[trigger] new_e[b]).0) by {
                        if b < old_e.len() {
                            assert(comps_view(old_e[a].0) != comps_view(old_e[b].0));
                        } else {
                            assert(comps_view(old_e[a].0) != k);
                        }
                    }
                    assert forall|a: int| 0 <= a < new_e.len() implies comps_view(
                        (#[trigger] new_e[a]).0,
                    ) == components(new_e[a].1@) by {
                        if a < old_e.len() {
                            assert(comps_view(old_e[a].0) == components(old_e[a].1@));
                        }
                    }
                }
                proof {
                    lemma_push(old_e, new_e, k);
                    assert(!entries_map(old_e).contains_key(k));
                }
                self.entries = entries;
            },
        }
    }

    /// Set the value for a path only if it has none yet.
    pub fn insert_if_absent(&mut self, key: Vec<u8>, value: V)
        ensures
            final(self).view() == if old(self).view().contains_key(components(key@)) {
                old(self).view()
            } else {
                old(self).view().insert(components(key@), (key@, value))
            },
    {
        if self.get(key.as_slice()).is_none() {
            self.insert(key, value);
        }
    }

    /// The entries: each path's components, stored spelling and value.
    pub fn entries(&self) -> (e: &Vec<(Vec<Vec<u8>>, Vec<u8>, V)>)
        ensures
            e@ == self.entry_seq(),
            entries_wf(e@),
            entries_map(e@) == self.view(),
    {
        proof {
            use_type_invariant(self);
        }
        &self.entries
    }
}

proof fn lemma_replace<V>(
    old_e: Seq<(Vec<Vec<u8>>, Vec<u8>, V)>,
    new_e: Seq<(Vec<Vec<u8>>, Vec<u8>, V)>,
    i: int,
    k: Seq<Seq<u8>>,
    v: (Seq<u8>, V),
)
    requires
        entries_wf(old_e),
        entries_wf(new_e),
        0 <= i < old_e.len(),
        comps_view(old_e[i].0) == k,
        new_e == old_e.update(i, new_e[i]),
        comps_view(new_e[i].0) == k,
        (new_e[i].1@, new_e[i].2) == v,
    ensures
        entries_map(new_e) == entries_map(old_e).insert(k, v),
{
    let a = entries_map(new_e);
    let b = entries_map(old_e).insert(k, v);
    assert forall|key: Seq<Seq<u8>>| a.contains_key(key) <==> b.contains_key(key) by {
        if a.contains_key(key) {
            let j = choose|j: int| 0 <= j < new_e.len() && comps_view((#[trigger] new_e[j]).0) == key;
            if j != i {
                assert(comps_view(old_e[j].0) == key);
            }
        }
        if b.contains_key(key) && key != k {
            let j = choose|j: int| 0 <= j < old_e.len() && comps_view((#[trigger] old_e[j]).0) == key;
            assert(comps_view(new_e[j].0) == key);
        }
        if key == k {
            assert(comps_view(new_e[i].0) == key);
        }
    }
    assert forall|key: Seq<Seq<u8>>| a.contains_key(key) implies a[key] == b[key] by {
        let j = choose|j: int| 0 <= j < new_e.len() && comps_view((#[trigger] new_e[j]).0) == key;
        lemma_entries_map_at(new_e, j);
        if j != i {
            lemma_entries_map_at(old_e, j);
            assert(comps_view(old_e[j].0) == key);
            assert(key != k);
        }
    }
    assert(a =~= b);
}

proof fn lemma_push<V>(
    old_e: Seq<(Vec<Vec<u8>>, Vec<u8>, V)>,
    new_e: Seq<(Vec<Vec<u8>>, Vec<u8>, V)>,
    k: Seq<Seq<u8>>,
)
    requires
        entries_wf(old_e),
        entries_wf(new_e),
        new_e.len() == old_e.len() + 1,
        forall|j: int| 0 <= j < old_e.len() ==> new_e[j] == old_e[j],
        comps_view(new_e.last().0) == k,
    ensures
        entries_map(new_e) == entries_map(old_e).insert(k, (new_e.last().1@, new_e.last().2)),
        !entries_map(old_e).contains_key(k),
{
    let n = old_e.len() as int;
    let a = entries_map(new_e);
    let b = entries_map(old_e).insert(k, (new_e.last().1@, new_e.last().2));
    if entries_map(old_e).contains_key(k) {
        let j = choose|j: int| 0 <= j < old_e.len() && comps_view((#[trigger] old_e[j]).0) == k;
        assert(new_e[j] == old_e[j]);
        assert(comps_view(new_e[j].0) != comps_view(new_e[n].0));
    }
    assert forall|key: Seq<Seq<u8>>| a.contains_key(key) <==> b.contains_key(key) by {
        if a.contains_key(key) {
            let j = choose|j: int| 0 <= j < new_e.len() && comps_view((#[trigger] new_e[j]).0) == key;
            if j < n {
                assert(comps_view(old_e[j].0) == key);
            }
        }
        if b.contains_key(key) && key != k {
            let j = choose|j: int| 0 <= j < old_e.len() && comps_view((#[trigger] old_e[j]).0) == key;
            assert(comps_view(new_e[j].0) == key);
        }
        if key == k {
            assert(comps_view(new_e[n].0) == key);
        }
    }
    assert forall|key: Seq<Seq<u8>>| a.contains_key(key) implies a[key] == b[key] by {
        let j = choose|j: int| 0 <= j < new_e.len() && comps_view((#[trigger] new_e[j]).0) == key;
        lemma_entries_map_at(new_e, j);
        if j < n {
            lemma_entries_map_at(old_e, j);
            assert(new_e[j] == old_e[j]);
            assert(key != k) by {
                assert(comps_view(new_e[j].0) != comps_view(new_e[n].0));
            }
        }
    }
    assert(a =~= b);
}

// ---------------------------------------------------------------------------
// Candidate font files.

/// The registry's paths that name existing font files, each classified by
/// where it lies; the first sighting of a path wins.
pub open spec fn system_candidates(
    system: Seq<(Seq<u8>, bool)>,
    home: Option<Seq<u8>>,
    os: TargetOs,
) -> Map<Seq<Seq<u8>>, (Seq<u8>, bool)>
    decreases system.len(),
{
    if system.len() == 0 {
        Map::empty()
    } else {
        let prev = system_candidates(system.drop_last(), home, os);
        let (p, exists) = system.last();
        if spec_is_font_file(p) && exists && !prev.contains_key(components(p)) {
            prev.insert(components(p), (p, spec_user_installed(p, home, os)))
        } else {
            prev
        }
    }
}

/// The font files found under the configured directories, each taking the
/// classification of its directory, overriding what was there.
pub open spec fn with_dir_entries(m: Map<Seq<Seq<u8>>, (Seq<u8>, bool)>, entries: Seq<(Seq<u8>, bool)>) -> Map<
    Seq<Seq<u8>>,
    (Seq<u8>, bool),
>
    decreases entries.len(),
{
    if entries.len() == 0 {
        m
    } else {
        let prev = with_dir_entries(m, entries.drop_last());
        let (p, user) = entries.last();
        if spec_is_font_file(p) {
            prev.insert(
                components(p),
                (
                    if prev.contains_key(components(p)) {
                        prev[components(p)].0
                    } else {
                        p
                    },
                    user,
                ),
            )
        } else {
            prev
        }
    }
}

pub open spec fn spec_candidates(
    system: Seq<(Seq<u8>, bool)>,
    home: Option<Seq<u8>>,
    os: TargetOs,
    dir_entries: Seq<(Seq<u8>, bool)>,
) -> Map<Seq<Seq<u8>>, (Seq<u8>, bool)> {
    with_dir_entries(system_candidates(system, home, os), dir_entries)
}

pub open spec fn pairs_view(v: Seq<(Vec<u8>, bool)>) -> Seq<(Seq<u8>, bool)> {
    v.map_values(|p: (Vec<u8>, bool)| (p.0@, p.1))
}

pub open spec fn home_view(home: Option<Vec<u8>>) -> Option<Seq<u8>> {
    match home {
        Some(h) => Some(h@),
        None => None,
    }
}

/// The candidate font files: `system` lists the registry's paths with
/// whether each exists on disk; `dir_entries` lists every path found under
/// the configured directories, in walk order, with its directory's
/// user-installed flag.
pub fn merge_candidates(
    system: &Vec<(Vec<u8>, bool)>,
    home: &Option<Vec<u8>>,
    os: TargetOs,
    dir_entries: &Vec<(Vec<u8>, bool)>,
) -> (candidates: PathMap<bool>)
    ensures
        candidates.view() == spec_candidates(
            pairs_view(system@),
            home_view(*home),
            os,
            pairs_view(dir_entries@),
        ),
{
    let ghost sv = pairs_view(system@);
    let ghost dv = pairs_view(dir_entries@);
    let ghost hv = home_view(*home);
    let mut m: PathMap<bool> = PathMap::new();
    for i in 0..system.len()
        invariant
            sv == pairs_view(system@),
            hv == home_view(*home),
            m.view() == system_candidates(sv.take(i as int), hv, os),
    {
        assert(sv.take(i + 1).drop_last() =~= sv.take(i as int));
        assert(sv.take(i + 1).last() == (system@[i as int].0@, system@[i as int].1));
        let (p, exists) = (&system[i].0, system[i].1);
        if is_font_file(p.as_slice()) && exists {
            let user = classify_user_installed(p.as_slice(), home, os);
            m.insert_if_absent(copy_bytes(p.as_slice()), user);
        }
    }
    assert(sv.take(sv.len() as int) =~= sv);
    let ghost base = m.view();
    for i in 0..dir_entries.len()
        invariant
            dv == pairs_view(dir_entries@),
            m.view() == with_dir_entries(base, dv.take(i as int)),
    {
        assert(dv.take(i + 1).drop_last() =~= dv.take(i as int));
        assert(dv.take(i + 1).last() == (dir_entries@[i as int].0@, dir_entries@[i as int].1));
        let (p, user) = (&dir_entries[i].0, dir_entries[i].1);
        if is_font_file(p.as_slice()) {
            m.insert(copy_bytes(p.as_slice()), user);
        }
    }
    assert(dv.take(dv.len() as int) =~= dv);
    m
}

proof fn lemma_system_candidates_font_files(system: Seq<(Seq<u8>, bool)>, home: Option<Seq<u8>>, os: TargetOs)
    ensures
        forall|k: Seq<Seq<u8>>|
            #[trigger] system_candidates(system, home, os).contains_key(k) ==> spec_is_font_file(
                system_candidates(system, home, os)[k].0,
            ) && components(system_candidates(system, home, os)[k].0) == k,
    decreases system.len(),
{
    if system.len() > 0 {
        lemma_system_candidates_font_files(system.drop_last(), home, os);
        let prev = system_candidates(system.drop_last(), home, os);
        assert forall|k: Seq<Seq<u8>>| #[trigger] system_candidates(system, home, os).contains_key(k)
            implies spec_is_font_file(system_candidates(system, home, os)[k].0) && components(
            system_candidates(system, home, os)[k].0,
        ) == k by {
            if !prev.contains_key(k) || k == components(system.last().0) {
            }
        }
    }
}

proof fn lemma_dir_entries_font_files(m: Map<Seq<Seq<u8>>, (Seq<u8>, bool)>, entries: Seq<(Seq<u8>, bool)>)
    requires
        forall|k: Seq<Seq<u8>>|
            #[trigger] m.contains_key(k) ==> spec_is_font_file(m[k].0) && components(m[k].0) == k,
    ensures
        forall|k: Seq<Seq<u8>>|
            #[trigger] with_dir_entries(m, entries).contains_key(k) ==> spec_is_font_file(
                with_dir_entries(m, entries)[k].0,
            ) && components(with_dir_entries(m, entries)[k].0) == k,
    decreases entries.len(),
{
    if entries.len() > 0 {
        lemma_dir_entries_font_files(m, entries.drop_last());
        let prev = with_dir_entries(m, entries.drop_last());
        assert forall|k: Seq<Seq<u8>>| #[trigger] with_dir_entries(m, entries).contains_key(k)
            implies spec_is_font_file(with_dir_entries(m, entries)[k].0) && components(
            with_dir_entries(m, entries)[k].0,
        ) == k by {
            if !prev.contains_key(k) || k == components(entries.last().0) {
            }
        }
    }
}

/// Every candidate names a font file.
pub proof fn candidates_are_font_files(
    system: Seq<(Seq<u8>, bool)>,
    home: Option<Seq<u8>>,
    os: TargetOs,
    dir_entries: Seq<(Seq<u8>, bool)>,
)
    ensures
        forall|k: Seq<Seq<u8>>|
            #[trigger] spec_candidates(system, home, os, dir_entries).contains_key(k)
                ==> spec_is_font_file(spec_candidates(system, home, os, dir_entries)[k].0)
                && components(spec_candidates(system, home, os, dir_entries)[k].0) == k,
{
    lemma_system_candidates_font_files(system, home, os);
    lemma_dir_entries_font_files(system_candidates(system, home, os), dir_entries);
}

proof fn lemma_system_candidate_source(
    system: Seq<(Seq<u8>, bool)>,
    home: Option<Seq<u8>>,
    os: TargetOs,
    k: Seq<Seq<u8>>,
)
    requires
        system_candidates(system, home, os).contains_key(k),
    ensures
        exists|j: int|
            0 <= j < system.len() && spec_is_font_file((#[trigger] system[j]).0) && system[j].1
                && components(system[j].0) == k,
    decreases system.len(),
{
    let prev = system_candidates(system.drop_last(), home, os);
    if prev.contains_key(k) {
        lemma_system_candidate_source(system.drop_last(), home, os, k);
        let j = choose|j: int|
            0 <= j < system.drop_last().len() && spec_is_font_file((#[trigger] system.drop_last()[j]).0)
                && system.drop_last()[j].1 && components(system.drop_last()[j].0) == k;
        assert(system[j] == system.drop_last()[j]);
    } else {
        assert(spec_is_font_file(system[system.len() - 1].0));
    }
}

/// The registry lists a path once however often it is seen: its first
/// sighting as an existing font file decides its spelling and its
/// classification.
pub proof fn registry_first_sighting_wins(
    system: Seq<(Seq<u8>, bool)>,
    home: Option<Seq<u8>>,
    os: TargetOs,
    i: int,
)
    requires
        0 <= i < system.len(),
        spec_is_font_file(system[i].0),
        system[i].1,
        forall|j: int|
            0 <= j < i ==> !(spec_is_font_file((#[trigger] system[j]).0) && system[j].1 && components(
                system[j].0,
            ) == components(system[i].0)),
    ensures
        system_candidates(system, home, os).contains_key(components(system[i].0)),
        system_candidates(system, home, os)[components(system[i].0)] == (
            system[i].0,
            spec_user_installed(system[i].0, home, os),
        ),
    decreases system.len(),
{
    let k = components(system[i].0);
    let prev = system_candidates(system.drop_last(), home, os);
    if i < system.len() - 1 {
        registry_first_sighting_wins(system.drop_last(), home, os, i);
        assert(system.drop_last()[i] == system[i]);
    } else {
        if prev.contains_key(k) {
            lemma_system_candidate_source(system.drop_last(), home, os, k);
            let j = choose|j: int|
                0 <= j < system.drop_last().len() && spec_is_font_file(
                    (#[trigger] system.drop_last()[j]).0,
                ) && system.drop_last()[j].1 && components(system.drop_last()[j].0) == k;
            assert(system[j] == system.drop_last()[j]);
        }
    }
}

/// A configured directory's classification beats the registry's: a font
/// file found under the configured directories takes the flag of its last
/// sighting there.
pub proof fn config_overrides_registry(
    system: Seq<(Seq<u8>, bool)>,
    home: Option<Seq<u8>>,
    os: TargetOs,
    dir_entries: Seq<(Seq<u8>, bool)>,
    i: int,
)
    requires
        0 <= i < dir_entries.len(),
        spec_is_font_file(dir_entries[i].0),
        forall|j: int|
            i < j < dir_entries.len() ==> components((#[trigger] dir_entries[j]).0) != components(
                dir_entries[i].0,
            ),
    ensures
        spec_candidates(system, home, os, dir_entries).contains_key(components(dir_entries[i].0)),
        spec_candidates(system, home, os, dir_entries)[components(dir_entries[i].0)].1
            == dir_entries[i].1,
    decreases dir_entries.len(),
{
    if i < dir_entries.len() - 1 {
        config_overrides_registry(system, home, os, dir_entries.drop_last(), i);
    }
}

// ---------------------------------------------------------------------------
// The catalogue.

/// Path -> the faces read from that file.  A file is listed under its path
/// read as text (invalid UTF-8 replaced by U+FFFD), as the response shows it.
pub type FontFiles = PathMap<Vec<FaceInfo>>;

/// Record a file's faces under its path read as text; a file that yielded
/// none is left out.
pub fn add_font_file(files: &mut FontFiles, path: Vec<u8>, faces: Vec<FaceInfo>)
    ensures
        final(files).view() == if faces@.len() == 0 {
            old(files).view()
        } else {
            old(files).view().insert(
                components(spec_utf8_lossy(path@)),
                (
                    if old(files).view().contains_key(components(spec_utf8_lossy(path@))) {
                        old(files).view()[components(spec_utf8_lossy(path@))].0
                    } else {
                        spec_utf8_lossy(path@)
                    },
                    faces,
                ),
            )
        },
{
    if faces.len() > 0 {
        files.insert(utf8_lossy(path.as_slice()), faces);
    }
}

}
