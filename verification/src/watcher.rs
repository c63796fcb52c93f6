//! The download-folder watcher: a file is announced once its size has held
//! still across consecutive polls.
use vstd::prelude::*;

verus! {

/// How many consecutive polls must see an unchanged size before a file is
/// announced.
pub const STABLE_POLLS_REQUIRED: u8 = 2;

/// What the watcher remembers of one file.
#[derive(Clone, Copy, Debug)]
pub struct TrackedFile {
    pub last_size: u64,
    pub stable_polls: u8,
    pub notified: bool,
}

impl Default for TrackedFile {
    fn default() -> (t: Self)
        ensures
            t.last_size == 0,
            t.stable_polls == 0,
            !t.notified,
    {
        TrackedFile { last_size: 0, stable_polls: 0, notified: false }
    }
}

/// The state after one more observation of the size: an unchanged size adds
/// one stable poll (saturating), a changed size is remembered and restarts
/// the count.
pub open spec fn tracked_after(state: TrackedFile, current_size: u64) -> TrackedFile {
    if state.last_size == current_size {
        TrackedFile {
            stable_polls: if state.stable_polls == u8::MAX {
                u8::MAX
            } else {
                (state.stable_polls + 1) as u8
            },
            ..state
        }
    } else {
        TrackedFile { last_size: current_size, stable_polls: 0, ..state }
    }
}

/// Records one observation of a file's size.
pub fn update_tracking_state(state: &mut TrackedFile, current_size: u64)
    ensures
        *final(state) == tracked_after(*old(state), current_size),
{
    if state.last_size == current_size {
        state.stable_polls = state.stable_polls.saturating_add(1);
    } else {
        state.last_size = current_size;
        state.stable_polls = 0;
    }
}

} // verus!

verus! {

/// What one poll of the download folder saw of an entry.
pub struct Observation {
    pub path: String,
    pub is_file: bool,
    /// The size, when the entry's metadata could be read.
    pub size: Option<u64>,
}

/// An entry is watched when it is a non-empty AppImage file.
pub open spec fn watched(o: Observation) -> bool {
    &&& o.is_file
    &&& crate::installer::has_extension(o.path@, "AppImage"@, "appimage"@)
    &&& o.size is Some
    &&& o.size->Some_0 > 0
}

/// An AppImage is recognised by the extension `AppImage` or `appimage`.
pub fn is_appimage_path(path: &str) -> (r: bool)
    ensures
        r == crate::installer::has_extension(path@, "AppImage"@, "appimage"@),
{
    crate::installer::is_appimage_path(path)
}

pub open spec fn default_tracked() -> TrackedFile {
    TrackedFile { last_size: 0, stable_polls: 0, notified: false }
}

/// One sighting of `path` with `size`: the file's new record, and whether it
/// is announced now (it has held still for the required polls and was not
/// announced before).
pub open spec fn sighting(m: Map<Seq<char>, TrackedFile>, path: Seq<char>, size: u64) -> (TrackedFile, bool) {
    let cur = if m.contains_key(path) {
        m[path]
    } else {
        default_tracked()
    };
    let upd = tracked_after(cur, size);
    if !upd.notified && upd.stable_polls >= STABLE_POLLS_REQUIRED {
        (TrackedFile { notified: true, ..upd }, true)
    } else {
        (upd, false)
    }
}

/// The observations of one poll taken in order: the records, the paths seen,
/// and the paths announced.
pub open spec fn poll_fold(m: Map<Seq<char>, TrackedFile>, obs: Seq<Observation>) -> (
    Map<Seq<char>, TrackedFile>,
    Set<Seq<char>>,
    Seq<Seq<char>>,
)
    decreases obs.len(),
{
    if obs.len() == 0 {
        (m, Set::empty(), seq![])
    } else {
        let (m1, s1, n1) = poll_fold(m, obs.drop_last());
        let o = obs.last();
        if watched(o) {
            let (f, note) = sighting(m1, o.path@, o.size->Some_0);
            (m1.insert(o.path@, f), s1.insert(o.path@), if note {
                n1.push(o.path@)
            } else {
                n1
            })
        } else {
            (m1, s1, n1)
        }
    }
}

/// One poll: the records of the files seen in it (all others are
/// forgotten) and the paths announced.
pub open spec fn poll_result(m: Map<Seq<char>, TrackedFile>, obs: Seq<Observation>) -> (
    Map<Seq<char>, TrackedFile>,
    Seq<Seq<char>>,
) {
    let (m1, seen, notes) = poll_fold(m, obs);
    (m1.restrict(seen), notes)
}

/// A watched file and its record.
pub struct WatchedFile {
    pub path: String,
    pub file: TrackedFile,
}

pub open spec fn entries_map(es: Seq<WatchedFile>) -> Map<Seq<char>, TrackedFile>
    decreases es.len(),
{
    if es.len() == 0 {
        Map::empty()
    } else {
        entries_map(es.drop_last()).insert(es.last().path@, es.last().file)
    }
}

pub open spec fn distinct_paths(es: Seq<WatchedFile>) -> bool {
    forall|i: int, j: int| 0 <= i < es.len() && 0 <= j < es.len() && i != j ==> es[i].path@ != es[j].path@
}

proof fn lemma_entries_map(es: Seq<WatchedFile>)
    requires
        distinct_paths(es),
    ensures
        forall|i: int| 0 <= i < es.len() ==> entries_map(es).contains_key(#[trigger] es[i].path@)
            && entries_map(es)[es[i].path@] == es[i].file,
        forall|p: Seq<char>| entries_map(es).contains_key(p) ==> exists|i: int| 0 <= i < es.len() && es[i].path@ == p,
    decreases es.len(),
{
    if es.len() > 0 {
        let init = es.drop_last();
        assert(distinct_paths(init));
        lemma_entries_map(init);
        assert forall|i: int| 0 <= i < es.len() implies entries_map(es).contains_key(#[trigger] es[i].path@)
            && entries_map(es)[es[i].path@] == es[i].file by {
            if i < es.len() - 1 {
                assert(init[i] == es[i]);
            }
        }
        assert forall|p: Seq<char>| entries_map(es).contains_key(p) implies exists|i: int| 0 <= i < es.len() && es[i].path@ == p by {
            if p == es.last().path@ {
                assert(es[es.len() - 1].path@ == p);
            } else {
                assert(entries_map(init).contains_key(p));
                let i = choose|i: int| 0 <= i < init.len() && init[i].path@ == p;
                assert(es[i] == init[i]);
                assert(es[i].path@ == p);
            }
        }
    }
}

proof fn lemma_entries_map_update(es: Seq<WatchedFile>, k: int, w: WatchedFile)
    requires
        distinct_paths(es),
        0 <= k < es.len(),
        w.path@ == es[k].path@,
    ensures
        entries_map(es.update(k, w)) == entries_map(es).insert(w.path@, w.file),
    decreases es.len(),
{
    let es2 = es.update(k, w);
    if k == es.len() - 1 {
        assert(es2.drop_last() =~= es.drop_last());
        lemma_entries_map(es);
        assert(entries_map(es2) =~= entries_map(es).insert(w.path@, w.file));
    } else {
        let init = es.drop_last();
        assert(es2.drop_last() =~= init.update(k, w));
        assert(distinct_paths(init));
        lemma_entries_map_update(init, k, w);
        assert(es.last().path@ != w.path@);
        assert(entries_map(es2) =~= entries_map(es).insert(w.path@, w.file));
    }
}

/// The watcher's memory of the download folder.
pub struct WatchState {
    entries: Vec<WatchedFile>,
}

impl WatchState {
    /// The record of every file being watched, by path.
    pub closed spec fn records(&self) -> Map<Seq<char>, TrackedFile> {
        entries_map(self.entries@)
    }

    pub closed spec fn well_formed(&self) -> bool {
        distinct_paths(self.entries@)
    }

    /// Nothing watched yet.
    pub fn new() -> (r: WatchState)
        ensures
            r.well_formed(),
            r.records() == Map::<Seq<char>, TrackedFile>::empty(),
    {
        WatchState { entries: Vec::new() }
    }

    /// How many files are being watched.
    pub fn len(&self) -> (r: usize)
        requires
            self.well_formed(),
        ensures
            r == self.records().dom().len(),
    {
        proof { lemma_entries_map(self.entries@); lemma_dom_len(self.entries@); }
        self.entries.len()
    }

    /// The record of the file at `path`, if it is being watched.
    pub fn get(&self, path: &str) -> (r: Option<TrackedFile>)
        requires
            self.well_formed(),
        ensures
            match r {
                Some(f) => self.records().contains_key(path@) && self.records()[path@] == f,
                None => !self.records().contains_key(path@),
            },
    {
        proof { lemma_entries_map(self.entries@); }
        match self.find(path) {
            Some(k) => Some(self.entries[k].file),
            None => None,
        }
    }

    fn find(&self, path: &str) -> (r: Option<usize>)
        ensures
            match r {
                Some(k) => k < self.entries.len() && self.entries@[k as int].path@ == path@,
                None => forall|i: int| 0 <= i < self.entries.len() ==> self.entries@[i].path@ != path@,
            },
    {
        let n = self.entries.len();
        for k in 0..n
            invariant
                n == self.entries.len(),
                forall|i: int| 0 <= i < k ==> self.entries@[i].path@ != path@,
        {
            if crate::text::equals_str(&crate::text::to_chars(self.entries[k].path.as_str()), path) {
                return Some(k);
            }
        }
        None
    }

    /// Takes in one poll of the download folder, in the order the entries
    /// were listed, and returns the paths to announce.
    pub fn poll(&mut self, observations: &Vec<Observation>) -> (announced: Vec<String>)
        requires
            old(self).well_formed(),
        ensures
            final(self).well_formed(),
            (final(self).records(), announced@.map_values(|s: String| s@)) == poll_result(
                old(self).records(),
                observations@,
            ),
    {
        let ghost m0 = self.records();
        let mut seen: Vec<Vec<char>> = Vec::new();
        let mut announced: Vec<String> = Vec::new();
        let n = observations.len();
        assert(observations@.take(0) =~= Seq::<Observation>::empty());
        assert(seen.deep_view().to_set() =~= Set::<Seq<char>>::empty());
        assert(announced@.map_values(|s: String| s@) =~= Seq::<Seq<char>>::empty());
        for i in 0..n
            invariant
                n == observations.len(),
                distinct_paths(self.entries@),
                poll_fold(m0, observations@.take(i as int)) == (
                    self.records(),
                    seen.deep_view().to_set(),
                    announced@.map_values(|s: String| s@),
                ),
        {
            let ghost prefix = observations@.take(i as int);
            assert(observations@.take(i + 1).drop_last() =~= prefix);
            assert(observations@.take(i + 1).last() == observations@[i as int]);
            let o = &observations[i];
            let size = match o.size {
                Some(s) => s,
                None => 0,
            };
            if o.is_file && is_appimage_path(o.path.as_str()) && o.size.is_some() && size > 0 {
                let ghost m1 = self.records();
                proof { lemma_entries_map(self.entries@); }
                let k = match self.find(o.path.as_str()) {
                    Some(k) => k,
                    None => {
                        let ghost before = self.entries@;
                        self.entries.push(WatchedFile { path: o.path.clone(), file: TrackedFile { last_size: 0, stable_polls: 0, notified: false } });
                        assert(self.entries@.drop_last() == before);
                        assert(distinct_paths(self.entries@));
                        assert(self.records() =~= m1.insert(o.path@, default_tracked()));
                        self.entries.len() - 1
                    },
                };
                let ghost es = self.entries@;
                proof { lemma_entries_map(es); }
                let mut f = self.entries[k].file;
                update_tracking_state(&mut f, size);
                let mut note = false;
                if !f.notified && f.stable_polls >= STABLE_POLLS_REQUIRED {
                    f.notified = true;
                    note = true;
                }
                let w = WatchedFile { path: self.entries[k].path.clone(), file: f };
                self.entries.set(k, w);
                proof {
                    lemma_entries_map_update(es, k as int, w);
                    assert(distinct_paths(self.entries@));
                }
                assert(self.records() =~= m1.insert(o.path@, sighting(m1, o.path@, size).0));
                let pv = crate::text::to_chars(o.path.as_str());
                let ghost seen_before = seen@;
                seen.push(pv);
                proof { crate::text::lemma_push_deep_view(seen_before, &seen, &pv); }
                proof {
                    Seq::new(seen_before.len(), |j: int| seen_before[j].deep_view()).lemma_push_to_set_commute(pv@);
                }
                assert(seen.deep_view().to_set() =~= Seq::new(seen_before.len(), |j: int| seen_before[j].deep_view()).to_set().insert(o.path@));
                if note {
                    let ghost ab = announced@;
                    announced.push(o.path.clone());
                    assert(announced@.map_values(|s: String| s@) =~= ab.map_values(|s: String| s@).push(o.path@));
                }
            }
        }
        assert(observations@.take(n as int) =~= observations@);
        self.forget_unseen(&seen);
        announced
    }

    /// Keeps only the records of the paths in `seen`.
    fn forget_unseen(&mut self, seen: &Vec<Vec<char>>)
        requires
            distinct_paths(old(self).entries@),
        ensures
            distinct_paths(final(self).entries@),
            final(self).records() == old(self).records().restrict(seen.deep_view().to_set()),
    {
        let ghost es = self.entries@;
        let ghost keep = seen.deep_view().to_set();
        let mut kept: Vec<WatchedFile> = Vec::new();
        let n = self.entries.len();
        assert(es.take(0) =~= Seq::<WatchedFile>::empty());
        assert(entries_map(kept@) =~= entries_map(es.take(0)).restrict(keep));
        for k in 0..n
            invariant
                n == self.entries.len(),
                es == self.entries@,
                distinct_paths(es),
                keep == seen.deep_view().to_set(),
                distinct_paths(kept@),
                entries_map(kept@) == entries_map(es.take(k as int)).restrict(keep),
                forall|j: int| #![trigger kept@[j]] 0 <= j < kept@.len() ==> exists|i: int| #![trigger es[i]] 0 <= i < k && kept@[j].path@ == es[i].path@,
        {
            assert(es.take(k + 1).drop_last() =~= es.take(k as int));
            assert(es.take(k + 1).last() == es[k as int]);
            let pv = crate::text::to_chars(self.entries[k].path.as_str());
            let inside = contains_seen(seen, &pv);
            assert(distinct_paths(es.take(k as int)));
            proof { lemma_entries_map(es.take(k as int)); }
            assert forall|i: int| 0 <= i < k implies es.take(k as int)[i].path@ != es[k as int].path@ by {
                assert(es.take(k as int)[i] == es[i]);
            }
            assert(!entries_map(es.take(k as int)).contains_key(es[k as int].path@));
            if inside {
                let ghost before = kept@;
                kept.push(WatchedFile { path: self.entries[k].path.clone(), file: self.entries[k].file });
                assert(kept@.drop_last() == before);
                assert forall|a: int, b: int| 0 <= a < kept@.len() && 0 <= b < kept@.len() && a != b implies kept@[a].path@ != kept@[b].path@ by {
                    if a == kept@.len() - 1 && b < kept@.len() - 1 {
                        let i = choose|i: int| 0 <= i < k && kept@[b].path@ == es[i].path@;
                    } else if b == kept@.len() - 1 && a < kept@.len() - 1 {
                        let i = choose|i: int| 0 <= i < k && kept@[a].path@ == es[i].path@;
                    }
                }
                assert(entries_map(kept@) =~= entries_map(es.take(k + 1)).restrict(keep));
            } else {
                assert(entries_map(kept@) =~= entries_map(es.take(k + 1)).restrict(keep));
            }
        }
        assert(es.take(n as int) =~= es);
        self.entries = kept;
    }
}

fn contains_seen(seen: &Vec<Vec<char>>, x: &Vec<char>) -> (r: bool)
    ensures
        r == seen.deep_view().to_set().contains(x@),
{
    let n = seen.len();
    let ghost dv = seen.deep_view();
    for i in 0..n
        invariant
            n == seen.len(),
            dv == seen.deep_view(),
            forall|j: int| 0 <= j < i ==> dv[j] != x@,
    {
        proof { crate::text::lemma_chars_deep_view(&seen[i as int]); }
        assert(dv[i as int] == seen@[i as int].deep_view());
        if crate::text::equals_exec(&seen[i], x) {
            assert(dv[i as int] == seen@[i as int].deep_view());
            assert(dv[i as int] == x@);
            assert(dv.contains(x@));
            return true;
        }
    }
    assert(!dv.contains(x@));
    false
}

proof fn lemma_dom_len(es: Seq<WatchedFile>)
    requires
        distinct_paths(es),
    ensures
        entries_map(es).dom().len() == es.len(),
        entries_map(es).dom().finite(),
    decreases es.len(),
{
    if es.len() > 0 {
        let init = es.drop_last();
        assert(distinct_paths(init));
        lemma_dom_len(init);
        lemma_entries_map(init);
        if entries_map(init).contains_key(es.last().path@) {
            let i = choose|i: int| 0 <= i < init.len() && init[i].path@ == es.last().path@;
            assert(es[i] == init[i]);
        }
    }
}

} // verus!

verus! {

/// The paths of the watched entries among `obs`.
pub open spec fn watched_paths(obs: Seq<Observation>) -> Set<Seq<char>> {
    Set::new(|p: Seq<char>| exists|i: int| 0 <= i < obs.len() && watched(obs[i]) && obs[i].path@ == p)
}

/// A listing of a directory names each entry once.
pub open spec fn distinct_observations(obs: Seq<Observation>) -> bool {
    forall|i: int, j: int| 0 <= i < obs.len() && 0 <= j < obs.len() && i != j ==> obs[i].path@ != obs[j].path@
}

/// The record of `p` announced in this poll is marked announced and has
/// held still for the required polls, and `p` had not been announced before.
pub open spec fn announced_properly(m: Map<Seq<char>, TrackedFile>, after: Map<Seq<char>, TrackedFile>, p: Seq<char>) -> bool {
    &&& after.contains_key(p)
    &&& after[p].notified
    &&& after[p].stable_polls >= STABLE_POLLS_REQUIRED
    &&& !(m.contains_key(p) && m[p].notified)
}

proof fn lemma_poll_fold(m: Map<Seq<char>, TrackedFile>, obs: Seq<Observation>)
    ensures
        poll_fold(m, obs).1 =~= watched_paths(obs),
        forall|p: Seq<char>| poll_fold(m, obs).1.contains(p) ==> poll_fold(m, obs).0.contains_key(p),
        forall|p: Seq<char>|
            #![trigger poll_fold(m, obs).0.contains_key(p)]
            (forall|i: int| 0 <= i < obs.len() ==> obs[i].path@ != p) ==> (poll_fold(m, obs).0.contains_key(p)
                == m.contains_key(p) && (m.contains_key(p) ==> poll_fold(m, obs).0[p] == m[p])),
        forall|k: int| 0 <= k < poll_fold(m, obs).2.len() ==> exists|i: int| 0 <= i < obs.len() && #[trigger] poll_fold(m, obs).2[k] == obs[i].path@,
        distinct_observations(obs) ==> forall|k: int| 0 <= k < poll_fold(m, obs).2.len() ==> announced_properly(m, poll_fold(m, obs).0, #[trigger] poll_fold(m, obs).2[k]),
    decreases obs.len(),
{
    if obs.len() > 0 {
        let init = obs.drop_last();
        lemma_poll_fold(m, init);
        let (m1, s1, n1) = poll_fold(m, init);
        let o = obs.last();
        let last = obs.len() - 1;
        assert forall|i: int| 0 <= i < init.len() implies init[i] == obs[i] by {}
        assert(watched_paths(obs) =~= if watched(o) { watched_paths(init).insert(o.path@) } else { watched_paths(init) }) by {
            assert forall|p: Seq<char>| watched_paths(obs).contains(p) implies (if watched(o) { watched_paths(init).insert(o.path@) } else { watched_paths(init) }).contains(p) by {
                let i = choose|i: int| 0 <= i < obs.len() && watched(obs[i]) && obs[i].path@ == p;
                if i < last {
                    assert(init[i] == obs[i]);
                }
            }
            assert forall|p: Seq<char>| (if watched(o) { watched_paths(init).insert(o.path@) } else { watched_paths(init) }).contains(p) implies watched_paths(obs).contains(p) by {
                if watched(o) && p == o.path@ {
                    assert(obs[last] == o);
                } else {
                    let i = choose|i: int| 0 <= i < init.len() && watched(init[i]) && init[i].path@ == p;
                    assert(init[i] == obs[i]);
                }
            }
        }
        let (m2, s2, n2) = poll_fold(m, obs);
        assert forall|k: int| 0 <= k < n2.len() implies exists|i: int| 0 <= i < obs.len() && #[trigger] n2[k] == obs[i].path@ by {
            if k < n1.len() {
                assert(n2[k] == n1[k]);
                let i = choose|i: int| 0 <= i < init.len() && n1[k] == init[i].path@;
                assert(init[i] == obs[i]);
            } else {
                assert(n2[k] == obs[last].path@);
            }
        }
        assert forall|p: Seq<char>|
            #![trigger m2.contains_key(p)]
            (forall|i: int| 0 <= i < obs.len() ==> obs[i].path@ != p) implies (m2.contains_key(p) == m.contains_key(p)
                && (m.contains_key(p) ==> m2[p] == m[p])) by {
            assert(obs[last].path@ != p);
            assert forall|i: int| 0 <= i < init.len() implies init[i].path@ != p by {
                assert(init[i] == obs[i]);
            }
        }
        if distinct_observations(obs) {
            assert(distinct_observations(init)) by {
                assert forall|i: int, j: int| 0 <= i < init.len() && 0 <= j < init.len() && i != j implies init[i].path@ != init[j].path@ by {
                    assert(init[i] == obs[i]);
                    assert(init[j] == obs[j]);
                }
            }
            assert forall|i: int| 0 <= i < init.len() implies init[i].path@ != o.path@ by {
                assert(init[i] == obs[i]);
                assert(obs[last] == o);
            }
            assert forall|k: int| 0 <= k < n2.len() implies announced_properly(m, m2, #[trigger] n2[k]) by {
                if k < n1.len() {
                    assert(n2[k] == n1[k]);
                    assert(announced_properly(m, m1, n1[k]));
                    let i = choose|i: int| 0 <= i < init.len() && n1[k] == init[i].path@;
                    assert(n1[k] != o.path@);
                } else {
                    assert(n2[k] == o.path@);
                    assert(m1.contains_key(o.path@) == m.contains_key(o.path@));
                }
            }
        }
    }
}

/// Law: after a poll the watcher remembers exactly the AppImages seen in
/// that poll, so its memory never outgrows one listing of the folder.
pub proof fn law_watch_state_is_bounded(m: Map<Seq<char>, TrackedFile>, obs: Seq<Observation>)
    ensures
        poll_result(m, obs).0.dom() =~= watched_paths(obs),
{
    lemma_poll_fold(m, obs);
}

/// Law: in a listing that names each entry once, a file is announced only
/// when its size has held still for the required polls, and never twice.
pub proof fn law_announce_once_when_stable(m: Map<Seq<char>, TrackedFile>, obs: Seq<Observation>)
    requires
        distinct_observations(obs),
    ensures
        forall|k: int| 0 <= k < poll_result(m, obs).1.len() ==> announced_properly(m, poll_result(m, obs).0, #[trigger] poll_result(m, obs).1[k]),
{
    lemma_poll_fold(m, obs);
    let (m1, seen, notes) = poll_fold(m, obs);
    assert forall|k: int| 0 <= k < notes.len() implies announced_properly(m, m1.restrict(seen), #[trigger] notes[k]) by {
        assert(announced_properly(m, m1, notes[k]));
        lemma_announced_watched(m, obs, k);
        assert(seen.contains(notes[k]));
    }
}

proof fn lemma_announced_watched(m: Map<Seq<char>, TrackedFile>, obs: Seq<Observation>, k: int)
    requires
        0 <= k < poll_fold(m, obs).2.len(),
    ensures
        watched_paths(obs).contains(poll_fold(m, obs).2[k]),
    decreases obs.len(),
{
    if obs.len() > 0 {
        let init = obs.drop_last();
        let n1 = poll_fold(m, init).2;
        if k < n1.len() {
            lemma_announced_watched(m, init, k);
            let p = n1[k];
            let i = choose|i: int| 0 <= i < init.len() && watched(init[i]) && init[i].path@ == p;
            assert(init[i] == obs[i]);
        } else {
            assert(obs[obs.len() - 1] == obs.last());
        }
    }
}

} // verus!

verus! {

/// The poll `obs` saw `p` as a watched file of `size` bytes.
pub open spec fn sees(obs: Seq<Observation>, p: Seq<char>, size: u64) -> bool {
    exists|i: int| 0 <= i < obs.len() && watched(obs[i]) && obs[i].path@ == p && obs[i].size == Some(size)
}

/// The poll `obs` saw `p` as a watched file.
pub open spec fn present_in(obs: Seq<Observation>, p: Seq<char>) -> bool {
    exists|i: int| 0 <= i < obs.len() && watched(obs[i]) && obs[i].path@ == p
}

/// The records after the first `k` polls of `polls`, starting from none.
pub open spec fn state_after(polls: Seq<Seq<Observation>>, k: nat) -> Map<Seq<char>, TrackedFile>
    decreases k,
{
    if k == 0 {
        Map::empty()
    } else {
        poll_result(state_after(polls, (k - 1) as nat), polls[k - 1]).0
    }
}

/// The paths announced by poll `k` of `polls`.
pub open spec fn announced_in(polls: Seq<Seq<Observation>>, k: nat) -> Seq<Seq<char>> {
    poll_result(state_after(polls, k), polls[k as int]).1
}

/// Every poll lists each entry once.
pub open spec fn distinct_polls(polls: Seq<Seq<Observation>>) -> bool {
    forall|t: int| 0 <= t < polls.len() ==> distinct_observations(#[trigger] polls[t])
}

/// What one poll does to the record of one path.
proof fn lemma_poll_one(m: Map<Seq<char>, TrackedFile>, obs: Seq<Observation>, p: Seq<char>, i: int)
    requires
        distinct_observations(obs),
        0 <= i < obs.len(),
        watched(obs[i]),
        obs[i].path@ == p,
    ensures
        poll_fold(m, obs).0.contains_key(p),
        poll_fold(m, obs).0[p] == sighting(m, p, obs[i].size->Some_0).0,
        poll_fold(m, obs).2.contains(p) == sighting(m, p, obs[i].size->Some_0).1,
    decreases obs.len(),
{
    let init = obs.drop_last();
    let o = obs.last();
    let last = obs.len() - 1;
    lemma_poll_fold(m, init);
    let (m1, s1, n1) = poll_fold(m, init);
    assert forall|a: int, b: int| 0 <= a < init.len() && 0 <= b < init.len() && a != b implies init[a].path@
        != init[b].path@ by {
        assert(init[a] == obs[a] && init[b] == obs[b]);
    }
    if i == last {
        assert forall|j: int| 0 <= j < init.len() implies init[j].path@ != p by {
            assert(init[j] == obs[j]);
        }
        assert(m1.contains_key(p) == m.contains_key(p));
        if n1.contains(p) {
            let k = choose|k: int| 0 <= k < n1.len() && n1[k] == p;
            let j = choose|j: int| 0 <= j < init.len() && #[trigger] n1[k] == init[j].path@;
        }
        let (f, note) = sighting(m1, p, o.size->Some_0);
        assert(sighting(m1, p, o.size->Some_0) == sighting(m, p, o.size->Some_0));
        if note {
            assert(n1.push(p).last() == p);
            assert(n1.push(p)[n1.len() as int] == p);
        }
    } else {
        assert(init[i] == obs[i]);
        lemma_poll_one(m, init, p, i);
        assert(o.path@ != p) by {
            assert(obs[last] == o);
        }
        if watched(o) {
            let (f, note) = sighting(m1, o.path@, o.size->Some_0);
            if note {
                let n2 = n1.push(o.path@);
                if n1.contains(p) {
                    let k = choose|k: int| 0 <= k < n1.len() && n1[k] == p;
                    assert(n2[k] == p);
                }
                if n2.contains(p) {
                    let k = choose|k: int| 0 <= k < n2.len() && n2[k] == p;
                    assert(k < n1.len());
                    assert(n1[k] == p);
                }
            }
        }
    }
}

/// A poll that does not see `p` forgets it and announces nothing of it.
proof fn lemma_poll_absent(m: Map<Seq<char>, TrackedFile>, obs: Seq<Observation>, p: Seq<char>)
    requires
        !present_in(obs, p),
    ensures
        !poll_result(m, obs).0.contains_key(p),
        !poll_result(m, obs).1.contains(p),
{
    lemma_poll_fold(m, obs);
    let (m1, seen, notes) = poll_fold(m, obs);
    if notes.contains(p) {
        let k = choose|k: int| 0 <= k < notes.len() && notes[k] == p;
        lemma_announced_watched(m, obs, k);
    }
}

/// What the records say after a run of polls: a record's size was seen in
/// the last poll, and, once it has held still, in the poll before.
pub open spec fn record_explained(polls: Seq<Seq<Observation>>, k: nat, p: Seq<char>, r: TrackedFile) -> bool {
    &&& k >= 1
    &&& r.last_size > 0
    &&& sees(polls[k - 1], p, r.last_size)
    &&& r.stable_polls >= 1 ==> k >= 2 && sees(polls[k - 2], p, r.last_size)
}

proof fn lemma_run_invariant(polls: Seq<Seq<Observation>>, k: nat)
    requires
        k <= polls.len(),
        distinct_polls(polls),
    ensures
        forall|p: Seq<char>|
            #[trigger] state_after(polls, k).contains_key(p) ==> record_explained(polls, k, p, state_after(polls, k)[p]),
    decreases k,
{
    if k > 0 {
        let km = (k - 1) as nat;
        lemma_run_invariant(polls, km);
        let m = state_after(polls, km);
        let obs = polls[k - 1];
        assert(distinct_observations(obs));
        lemma_poll_fold(m, obs);
        assert forall|p: Seq<char>| #[trigger] state_after(polls, k).contains_key(p) implies record_explained(
            polls,
            k,
            p,
            state_after(polls, k)[p],
        ) by {
            assert(watched_paths(obs).contains(p));
            let i = choose|i: int| 0 <= i < obs.len() && watched(obs[i]) && obs[i].path@ == p;
            lemma_poll_one(m, obs, p, i);
            let s = obs[i].size->Some_0;
            let r = state_after(polls, k)[p];
            assert(r == sighting(m, p, s).0);
            assert(r.last_size == s);
            assert(obs[i].size == Some(s));
            if r.stable_polls >= 1 {
                assert(m.contains_key(p));
                assert(m[p].last_size == s);
            }
        }
    }
}

/// Law: the watcher announces a download only once the same non-zero size
/// was seen in three consecutive polls (the announcing one and the two
/// before it), for polls that each list an entry once.
pub proof fn law_announced_after_three_equal_polls(polls: Seq<Seq<Observation>>, k: nat, p: Seq<char>)
    requires
        distinct_polls(polls),
        k < polls.len(),
        announced_in(polls, k).contains(p),
    ensures
        k >= 2,
        exists|s: u64|
            s > 0 && sees(polls[k - 2], p, s) && sees(polls[k - 1], p, s) && sees(polls[k as int], p, s),
{
    let m = state_after(polls, k);
    let obs = polls[k as int];
    assert(distinct_observations(obs));
    if !present_in(obs, p) {
        lemma_poll_absent(m, obs, p);
    }
    let i = choose|i: int| 0 <= i < obs.len() && watched(obs[i]) && obs[i].path@ == p;
    lemma_poll_one(m, obs, p, i);
    let s = obs[i].size->Some_0;
    assert(sighting(m, p, s).1);
    lemma_run_invariant(polls, k);
    assert(m.contains_key(p));
    assert(record_explained(polls, k, p, m[p]));
    assert(sees(obs, p, s));
}

/// A file announced by poll `k` stays recorded as announced while every
/// later poll sees it.
proof fn lemma_stays_notified(polls: Seq<Seq<Observation>>, k: nat, t: nat, p: Seq<char>)
    requires
        distinct_polls(polls),
        k < t <= polls.len(),
        announced_in(polls, k).contains(p),
        forall|u: int| k < u < t ==> present_in(#[trigger] polls[u], p),
    ensures
        state_after(polls, t).contains_key(p),
        state_after(polls, t)[p].notified,
    decreases t,
{
    let tm = (t - 1) as nat;
    let m = state_after(polls, tm);
    let obs = polls[tm as int];
    assert(distinct_observations(obs));
    lemma_poll_fold(m, obs);
    if tm == k {
        if !present_in(obs, p) {
            lemma_poll_absent(m, obs, p);
        }
    } else {
        lemma_stays_notified(polls, k, tm, p);
        assert(present_in(polls[tm as int], p));
    }
    let i = choose|i: int| 0 <= i < obs.len() && watched(obs[i]) && obs[i].path@ == p;
    lemma_poll_one(m, obs, p, i);
    assert(watched_paths(obs).contains(p));
}

/// Law: a file is announced at most once while it stays in the folder:
/// after poll `k` announced it, a later poll `k2` does not, as long as every
/// poll in between (and `k2`) saw it, for polls that each list an entry once.
pub proof fn law_announced_once_while_present(polls: Seq<Seq<Observation>>, k: nat, k2: nat, p: Seq<char>)
    requires
        distinct_polls(polls),
        k < k2 < polls.len(),
        announced_in(polls, k).contains(p),
        forall|u: int| k < u <= k2 ==> present_in(#[trigger] polls[u], p),
    ensures
        !announced_in(polls, k2).contains(p),
{
    lemma_stays_notified(polls, k, k2, p);
    let m = state_after(polls, k2);
    let obs = polls[k2 as int];
    assert(distinct_observations(obs));
    assert(present_in(obs, p));
    let i = choose|i: int| 0 <= i < obs.len() && watched(obs[i]) && obs[i].path@ == p;
    lemma_poll_one(m, obs, p, i);
}

} // verus!
