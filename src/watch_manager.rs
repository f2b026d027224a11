//! The registry of watched directories: one watch per path, each with the
//! set of connections subscribed to it, kept in step with the frames of
//! each connection.

use vstd::prelude::*;

use crate::entry::Entry;
use crate::errors::{ServerError, WatchError};
use crate::frame_set::{is_frame_key, FrameSet, FrameView};
use crate::message::{Message, MessageKind, Payload, status_text};
use crate::virtual_dir::entry_views;
use crate::path::string_views;
use crate::table::{
    lemma_pairs_map_dom, lemma_pairs_map_index, lemma_pairs_map_push, lemma_pairs_map_remove,
    lemma_pairs_map_update, pairs_map, unique_keys,
};
use crate::text::{chars_eq, chars_of, string_of};

verus! {

/// The subscribers of each watched path, by connection id.
pub type WatchMap = Map<Seq<char>, Set<Seq<char>>>;

/// `m` once connection `sender` no longer follows `path`; a watch left
/// without subscribers is gone.
pub open spec fn drop_subscriber(m: WatchMap, path: Seq<char>, sender: Seq<char>) -> WatchMap {
    if m.contains_key(path) {
        let rest = m[path].remove(sender);
        if rest.is_empty() {
            m.remove(path)
        } else {
            m.insert(path, rest)
        }
    } else {
        m
    }
}

/// `m` once frame `key` of a connection with frames `f` leaves its path
/// for `new_path`: the connection stops following the old path unless the
/// frame stays or the other frame shows it too.
pub open spec fn unwatch_view(m: WatchMap, f: FrameView, key: Seq<char>, new_path: Seq<char>, sender: Seq<char>) -> WatchMap {
    match f.path_to_be_unused(key, new_path) {
        Some(p) => drop_subscriber(m, p, sender),
        None => m,
    }
}

/// `m` once connection `sender` follows `path`, creating the watch if need
/// be.
pub open spec fn subscribe(m: WatchMap, path: Seq<char>, sender: Seq<char>) -> WatchMap {
    if m.contains_key(path) {
        m.insert(path, m[path].insert(sender))
    } else {
        m.insert(path, set![sender])
    }
}

/// The registry and frames after a successful change of directory of frame
/// `key` to `new_path`.
pub open spec fn cd_view(m: WatchMap, f: FrameView, key: Seq<char>, new_path: Seq<char>, sender: Seq<char>) -> (WatchMap, FrameView) {
    (subscribe(unwatch_view(m, f, key, new_path, sender), new_path, sender), f.update(key, new_path))
}

/// The registry once a connection with frames `f` is gone.
pub open spec fn remove_view(m: WatchMap, f: FrameView, sender: Seq<char>) -> WatchMap {
    drop_subscriber(drop_subscriber(m, f.a, sender), f.b, sender)
}

/// After a change of directory to `path`, the watch on `path` lists the
/// connection. After a further change of the same frame to another path,
/// while the other frame is not on `path`, the watch on `path` no longer
/// lists the connection, and it is gone if that left it without
/// subscribers.
pub proof fn lemma_cd_moves_subscription(
    m: WatchMap,
    f: FrameView,
    key: Seq<char>,
    path: Seq<char>,
    path2: Seq<char>,
    sender: Seq<char>,
)
    requires
        is_frame_key(key),
        path != path2,
        f.other_path(key) != path,
    ensures
        ({
            let (m1, f1) = cd_view(m, f, key, path, sender);
            let (m2, f2) = cd_view(m1, f1, key, path2, sender);
            &&& m1.contains_key(path) && m1[path].contains(sender)
            &&& !(m2.contains_key(path) && m2[path].contains(sender))
            &&& m1[path].remove(sender).is_empty() ==> !m2.contains_key(path)
        }),
{
    let (m1, f1) = cd_view(m, f, key, path, sender);
    assert(f1.path(key) == path);
    assert(f1.other_path(key) == f.other_path(key));
    assert(f1.path_to_be_unused(key, path2) == Some(path));
    let u = unwatch_view(m1, f1, key, path2, sender);
    assert(u == drop_subscriber(m1, path, sender));
    if m1[path].remove(sender).is_empty() {
        assert(!u.contains_key(path));
    } else {
        assert(!u[path].contains(sender));
    }
}

/// When every watch that lists a connection is on one of its frames' paths,
/// no watch lists it once the connection is gone.
pub proof fn lemma_remove_clears_connection(m: WatchMap, f: FrameView, sender: Seq<char>)
    requires
        forall|p: Seq<char>| #[trigger] m.contains_key(p) && m[p].contains(sender) ==> p == f.a || p == f.b,
    ensures
        forall|p: Seq<char>| #[trigger] remove_view(m, f, sender).contains_key(p) ==> !remove_view(m, f, sender)[p].contains(sender),
{
    let m1 = drop_subscriber(m, f.a, sender);
    let m2 = drop_subscriber(m1, f.b, sender);
    assert forall|p: Seq<char>| #[trigger] m2.contains_key(p) implies !m2[p].contains(sender) by {
        if p != f.a && p != f.b {
            assert(m1.contains_key(p) && m1[p] == m[p]);
        } else if p == f.b {
        } else {
            assert(m1.contains_key(p));
        }
    }
}

/// What a running watch can report to the registry.
#[derive(Clone, Copy, Debug, PartialEq, Eq, Structural)]
pub enum WatchStatus {
    /// The watch failed and stopped.
    Abort,
}

/// A notice from the watch on `path`.
pub struct WatchControl {
    pub path: String,
    pub status: WatchStatus,
}

/// What one poll of a watched directory found.
pub enum PollResult {
    /// The fingerprint did not change.
    Unchanged,
    /// It changed; the fresh entries.
    Changed(Vec<Entry>),
    /// The directory could not be read; the error's text.
    Failed(String),
}

/// The message a subscriber gets from a poll of `path`: the directory's
/// path and fresh entries after a change, the error after a failure (the
/// directory is unavailable: code `E004002`).
pub open spec fn poll_message(m: Message, path: Seq<char>, result: PollResult) -> bool {
    &&& m.cid@.len() == 0
    &&& match result {
        PollResult::Changed(es) => m.status@ == status_text(MessageKind::DirUpdate) && (m.data matches Payload::Listing {
            path: p,
            entries: e,
        } && p@ == path && entry_views(e@) == entry_views(es@)),
        PollResult::Failed(msg) => m.status@ == status_text(MessageKind::WatchError) && (m.data matches Payload::WatchError {
            code: c,
            msg: t,
            path: p,
        } && c@ == "E004002"@ && t@ == msg@ && p@ == path),
        PollResult::Unchanged => false,
    }
}

/// A copy of a listing.
fn copy_entries(v: &Vec<Entry>) -> (r: Vec<Entry>)
    ensures
        entry_views(r@) == entry_views(v@),
{
    let mut r: Vec<Entry> = Vec::new();
    let mut i: usize = 0;
    while i < v.len()
        invariant
            i <= v@.len(),
            entry_views(r@) == entry_views(v@).subrange(0, i as int),
        decreases v@.len() - i,
    {
        let ghost before = entry_views(r@);
        r.push(v[i].duplicate());
        assert(entry_views(r@) =~= before.push(v@[i as int]@));
        i += 1;
        assert(entry_views(r@) =~= entry_views(v@).subrange(0, i as int));
    }
    assert(entry_views(v@).subrange(0, v@.len() as int) =~= entry_views(v@));
    r
}

struct WatchRecord {
    path: String,
    subs: Vec<String>,
}

/// The watched paths, each with the ids of the connections that follow it.
pub struct WatchRegistry {
    watches: Vec<WatchRecord>,
}

/// What a change of directory leaves to do.
pub struct WatchStep {
    /// A path whose watch lost its last subscriber; its poller is to stop.
    pub stopped: Option<String>,
    /// The new path has no watch yet: one is to be created (which lists the
    /// directory and may fail) and then recorded with `add_watch`.
    pub create: bool,
}

pub open spec fn id_set(v: Seq<String>) -> Set<Seq<char>> {
    string_views(v).to_set()
}

fn contains_id(v: &Vec<String>, id: &Vec<char>) -> (r: bool)
    ensures
        r == id_set(v@).contains(id@),
{
    let mut i: usize = 0;
    while i < v.len()
        invariant
            i <= v@.len(),
            forall|j: int| 0 <= j < i ==> v@[j]@ != id@,
        decreases v@.len() - i,
    {
        if chars_eq(&chars_of(v[i].as_str()), id) {
            assert(string_views(v@)[i as int] == id@);
            return true;
        }
        i += 1;
    }
    proof {
        if string_views(v@).contains(id@) {
            let j = choose|j: int| 0 <= j < v@.len() && string_views(v@)[j] == id@;
            assert(v@[j]@ == id@);
        }
    }
    false
}

fn copy_ids(v: &Vec<String>) -> (r: Vec<String>)
    ensures
        string_views(r@) == string_views(v@),
{
    let mut r: Vec<String> = Vec::new();
    let mut i: usize = 0;
    while i < v.len()
        invariant
            i <= v@.len(),
            string_views(r@) == string_views(v@).subrange(0, i as int),
        decreases v@.len() - i,
    {
        let ghost before = r@;
        let c = string_of(&chars_of(v[i].as_str()));
        r.push(c);
        assert(string_views(r@) =~= string_views(before).push(v@[i as int]@));
        i += 1;
        assert(string_views(r@) =~= string_views(v@).subrange(0, i as int));
    }
    assert(string_views(v@).subrange(0, v@.len() as int) =~= string_views(v@));
    r
}

fn without_id(v: &Vec<String>, id: &Vec<char>) -> (r: Vec<String>)
    ensures
        id_set(r@) == id_set(v@).remove(id@),
        string_views(v@).no_duplicates() ==> string_views(r@).no_duplicates(),
{
    let mut r: Vec<String> = Vec::new();
    let mut i: usize = 0;
    let ghost mut idx: Seq<int> = Seq::empty();
    while i < v.len()
        invariant
            i <= v@.len(),
            idx.len() == r@.len(),
            forall|a: int| 0 <= a < r@.len() ==> 0 <= #[trigger] idx[a] < i && v@[idx[a]]@ == r@[a]@ && r@[a]@ != id@,
            forall|a: int, b: int| 0 <= a < b < r@.len() ==> #[trigger] idx[a] < #[trigger] idx[b],
            forall|j: int| 0 <= j < i && (#[trigger] v@[j])@ != id@ ==> exists|a: int| 0 <= a < r@.len() && idx[a] == j,
        decreases v@.len() - i,
    {
        let c = chars_of(v[i].as_str());
        if !chars_eq(&c, id) {
            let ghost before = r@;
            let ghost old_idx = idx;
            r.push(string_of(&c));
            proof {
                idx = idx.push(i as int);
                assert forall|a: int| 0 <= a < r@.len() implies 0 <= #[trigger] idx[a] < i + 1 && v@[idx[a]]@ == r@[a]@ && r@[a]@ != id@ by {
                    if a < before.len() {
                        assert(r@[a] == before[a] && idx[a] == old_idx[a]);
                    }
                }
                assert forall|a: int, b: int| 0 <= a < b < r@.len() implies #[trigger] idx[a] < #[trigger] idx[b] by {
                    assert(idx[a] == old_idx[a]);
                    if b < before.len() {
                        assert(idx[b] == old_idx[b]);
                    }
                }
                assert forall|j: int| 0 <= j < i + 1 && (#[trigger] v@[j])@ != id@ implies exists|a: int| 0 <= a < r@.len() && idx[a] == j by {
                    if j < i {
                        let a = choose|a: int| 0 <= a < old_idx.len() && old_idx[a] == j;
                        assert(idx[a] == old_idx[a]);
                    } else {
                        assert(idx[before.len() as int] == j);
                    }
                }
            }
        }
        i += 1;
    }
    proof {
        let rs = string_views(r@);
        let vs = string_views(v@);
        assert forall|k: Seq<char>| rs.to_set().contains(k) <==> #[trigger] vs.to_set().remove(id@).contains(k) by {
            if rs.contains(k) {
                let a = choose|a: int| 0 <= a < rs.len() && rs[a] == k;
                assert(vs[idx[a]] == k);
            }
            if vs.contains(k) && k != id@ {
                let j = choose|j: int| 0 <= j < vs.len() && vs[j] == k;
                assert(v@[j]@ == k);
                let a = choose|a: int| 0 <= a < r@.len() && idx[a] == j;
                assert(rs[a] == k);
            }
        }
        assert(rs.to_set() =~= vs.to_set().remove(id@));
        if vs.no_duplicates() {
            assert forall|a: int, b: int| 0 <= a < rs.len() && 0 <= b < rs.len() && a != b implies rs[a] != rs[b] by {
                if a < b {
                    assert(idx[a] < idx[b]);
                } else {
                    assert(idx[b] < idx[a]);
                }
                assert(vs[idx[a]] != vs[idx[b]]);
            }
        }
    }
    r
}

impl WatchRegistry {
    closed spec fn pairs(&self) -> Seq<(Seq<char>, Set<Seq<char>>)> {
        self.watches@.map_values(|w: WatchRecord| (w.path@, id_set(w.subs@)))
    }

    /// Paths are unique, no watch is without subscribers, and no connection
    /// is listed twice on one watch.
    pub closed spec fn wf(&self) -> bool {
        &&& unique_keys(self.pairs())
        &&& forall|i: int| 0 <= i < self.watches@.len() ==> (#[trigger] self.watches@[i]).subs@.len() > 0
            && string_views(self.watches@[i].subs@).no_duplicates()
    }

    /// For each watched path, the ids of the connections following it.
    pub closed spec fn view(&self) -> WatchMap {
        pairs_map(self.pairs())
    }

    /// Every watch in the registry has a subscriber.
    pub proof fn lemma_nonempty(&self)
        requires
            self.wf(),
        ensures
            forall|p: Seq<char>| #[trigger] self.view().contains_key(p) ==> !self.view()[p].is_empty(),
    {
        let s = self.pairs();
        lemma_pairs_map_dom(s);
        assert forall|p: Seq<char>| #[trigger] self.view().contains_key(p) implies !self.view()[p].is_empty() by {
            let j = choose|j: int| 0 <= j < s.len() && s[j].0 == p;
            lemma_pairs_map_index(s, j);
            let w = self.watches@[j];
            assert(string_views(w.subs@).contains(w.subs@[0]@)) by {
                assert(string_views(w.subs@)[0] == w.subs@[0]@);
            }
            assert(id_set(w.subs@).contains(w.subs@[0]@));
        }
    }

    /// No directory is watched.
    pub fn new() -> (r: WatchRegistry)
        ensures
            r.wf(),
            r.view() == WatchMap::empty(),
    {
        let r = WatchRegistry { watches: Vec::new() };
        assert(r.pairs() =~= Seq::<(Seq<char>, Set<Seq<char>>)>::empty());
        r
    }

    fn find(&self, path: &Vec<char>) -> (r: Option<usize>)
        requires
            self.wf(),
        ensures
            match r {
                Some(i) => i < self.watches@.len() && self.pairs()[i as int].0 == path@,
                None => !self.view().contains_key(path@),
            },
    {
        let mut i: usize = 0;
        while i < self.watches.len()
            invariant
                i <= self.watches@.len(),
                forall|j: int| 0 <= j < i ==> self.pairs()[j].0 != path@,
            decreases self.watches@.len() - i,
        {
            if chars_eq(&chars_of(self.watches[i].path.as_str()), path) {
                return Some(i);
            }
            i += 1;
        }
        proof {
            lemma_pairs_map_dom(self.pairs());
        }
        None
    }

    /// The number of watched paths.
    pub fn len(&self) -> (r: usize)
        requires
            self.wf(),
        ensures
            r == self.view().dom().len(),
    {
        proof {
            let s = self.pairs();
            lemma_pairs_map_dom(s);
            let keys = s.map_values(|p: (Seq<char>, Set<Seq<char>>)| p.0);
            assert(self.view().dom() =~= keys.to_set()) by {
                assert forall|k: Seq<char>| self.view().dom().contains(k) <==> #[trigger] keys.to_set().contains(k) by {
                    if self.view().dom().contains(k) {
                        let j = choose|j: int| 0 <= j < s.len() && s[j].0 == k;
                        assert(keys[j] == k);
                    }
                    if keys.contains(k) {
                        let j = choose|j: int| 0 <= j < keys.len() && keys[j] == k;
                        assert(s[j].0 == k);
                    }
                }
            }
            assert(keys.no_duplicates()) by {
                assert forall|i: int, j: int| 0 <= i < keys.len() && 0 <= j < keys.len() && i != j implies keys[i] != keys[j] by {
                    if i < j {
                        assert(s[i].0 != s[j].0);
                    } else {
                        assert(s[j].0 != s[i].0);
                    }
                }
            }
            keys.unique_seq_to_set();
        }
        self.watches.len()
    }

    /// The ids of the connections that follow `path`, each once; none when
    /// `path` is not watched.
    pub fn subscribers(&self, path: &str) -> (r: Option<Vec<String>>)
        requires
            self.wf(),
        ensures
            match r {
                Some(v) => self.view().contains_key(path@) && id_set(v@) == self.view()[path@]
                    && string_views(v@).no_duplicates(),
                None => !self.view().contains_key(path@),
            },
    {
        let key = chars_of(path);
        match self.find(&key) {
            Some(i) => {
                let copy = copy_ids(&self.watches[i].subs);
                proof {
                    lemma_pairs_map_index(self.pairs(), i as int);
                }
                Some(copy)
            },
            None => None,
        }
    }

    fn drop_at(&mut self, i: usize, sender: &Vec<char>) -> (r: bool)
        requires
            old(self).wf(),
            i < old(self).watches@.len(),
        ensures
            final(self).wf(),
            final(self).view() == drop_subscriber(old(self).view(), old(self).pairs()[i as int].0, sender@),
            r == !final(self).view().contains_key(old(self).pairs()[i as int].0),
    {
        let ghost old_pairs = self.pairs();
        let ghost path = old_pairs[i as int].0;
        proof {
            lemma_pairs_map_index(old_pairs, i as int);
        }
        let rest = without_id(&self.watches[i].subs, sender);
        if rest.len() == 0 {
            self.watches.remove(i);
            proof {
                lemma_pairs_map_remove(old_pairs, i as int);
                assert(self.pairs() =~= old_pairs.remove(i as int));
                assert(id_set(rest@) =~= Set::<Seq<char>>::empty());
                assert forall|j: int| 0 <= j < self.watches@.len() implies (#[trigger] self.watches@[j]).subs@.len() > 0
                    && string_views(self.watches@[j].subs@).no_duplicates() by {
                    if j < i {
                        assert(self.watches@[j] == old(self).watches@[j]);
                    } else {
                        assert(self.watches@[j] == old(self).watches@[j + 1]);
                    }
                }
            }
            true
        } else {
            let ghost rs = id_set(rest@);
            let p = string_of(&chars_of(self.watches[i].path.as_str()));
            self.watches.set(i, WatchRecord { path: p, subs: rest });
            proof {
                lemma_pairs_map_update(old_pairs, i as int, rs);
                assert(self.pairs() =~= old_pairs.update(i as int, (path, rs)));
                assert(string_views(rest@).contains(rest@[0]@)) by {
                    assert(string_views(rest@)[0] == rest@[0]@);
                }
                assert(!rs.is_empty()) by {
                    assert(rs.contains(rest@[0]@));
                }
                assert forall|j: int| 0 <= j < self.watches@.len() implies (#[trigger] self.watches@[j]).subs@.len() > 0
                    && string_views(self.watches@[j].subs@).no_duplicates() by {
                    if j != i {
                        assert(self.watches@[j] == old(self).watches@[j]);
                    }
                }
            }
            false
        }
    }

    /// Stops connection `sender` from following `path`; a watch left
    /// without subscribers is removed, and then `true` comes back: its
    /// poller is to stop.
    pub fn drop_subscriber(&mut self, path: &str, sender: &str) -> (r: bool)
        requires
            old(self).wf(),
        ensures
            final(self).wf(),
            final(self).view() == drop_subscriber(old(self).view(), path@, sender@),
            r == (old(self).view().contains_key(path@) && !final(self).view().contains_key(path@)),
    {
        let key = chars_of(path);
        let sc = chars_of(sender);
        match self.find(&key) {
            Some(i) => {
                proof {
                    lemma_pairs_map_index(self.pairs(), i as int);
                }
                self.drop_at(i, &sc)
            },
            None => false,
        }
    }

    /// Frame `key` of connection `sender` (with frames `frames`) leaves its
    /// path for `new_path`: the connection stops following the old path,
    /// unless the frame stays or the other frame still shows it. The path
    /// whose watch lost its last subscriber comes back.
    pub fn unwatch(&mut self, frames: &FrameSet, key: &str, new_path: &str, sender: &str) -> (r: Option<String>)
        requires
            old(self).wf(),
            is_frame_key(key@),
        ensures
            final(self).wf(),
            final(self).view() == unwatch_view(old(self).view(), frames@, key@, new_path@, sender@),
            match r {
                Some(p) => frames@.path_to_be_unused(key@, new_path@) == Some(p@) && old(self).view().contains_key(p@)
                    && !final(self).view().contains_key(p@),
                None => frames@.path_to_be_unused(key@, new_path@) is None || !old(self).view().contains_key(
                    frames@.path_to_be_unused(key@, new_path@)->Some_0,
                ) || final(self).view().contains_key(frames@.path_to_be_unused(key@, new_path@)->Some_0),
            },
    {
        match frames.path_to_be_unused(key, new_path) {
            Some(p) => {
                if self.drop_subscriber(p, sender) {
                    Some(string_of(&chars_of(p)))
                } else {
                    None
                }
            },
            None => None,
        }
    }

    fn add_at(&mut self, i: usize, sender: &Vec<char>)
        requires
            old(self).wf(),
            i < old(self).watches@.len(),
        ensures
            final(self).wf(),
            final(self).view() == subscribe(old(self).view(), old(self).pairs()[i as int].0, sender@),
    {
        let ghost old_pairs = self.pairs();
        let ghost path = old_pairs[i as int].0;
        proof {
            lemma_pairs_map_index(old_pairs, i as int);
        }
        if contains_id(&self.watches[i].subs, sender) {
            assert(old_pairs[i as int].1.insert(sender@) =~= old_pairs[i as int].1);
            assert(self.view() =~= subscribe(old(self).view(), path, sender@));
            return;
        }
        let mut subs = without_id(&self.watches[i].subs, sender);
        let ghost before = subs@;
        subs.push(string_of(sender));
        let ghost ns = id_set(subs@);
        proof {
            assert(string_views(subs@) =~= string_views(before).push(sender@));
            assert(ns =~= id_set(before).insert(sender@)) by {
                assert forall|k: Seq<char>| #[trigger] ns.contains(k) <==> id_set(before).insert(sender@).contains(k) by {
                    let sv = string_views(subs@);
                    if sv.contains(k) {
                        let a = choose|a: int| 0 <= a < sv.len() && sv[a] == k;
                        if a < before.len() {
                            assert(string_views(before)[a] == k);
                        }
                    }
                    if string_views(before).contains(k) {
                        let a = choose|a: int| 0 <= a < before.len() && string_views(before)[a] == k;
                        assert(sv[a] == k);
                    }
                    if k == sender@ {
                        assert(sv[before.len() as int] == k);
                    }
                }
            }
            assert(id_set(before) =~= old_pairs[i as int].1.remove(sender@));
            assert(ns =~= old_pairs[i as int].1.insert(sender@));
            assert(string_views(subs@).no_duplicates()) by {
                let sv = string_views(subs@);
                let bv = string_views(before);
                assert(!bv.contains(sender@)) by {
                    assert(!id_set(before).contains(sender@));
                }
                assert forall|a: int, b: int| 0 <= a < sv.len() && 0 <= b < sv.len() && a != b implies sv[a] != sv[b] by {
                    if a < before.len() {
                        assert(sv[a] == bv[a]);
                    }
                    if b < before.len() {
                        assert(sv[b] == bv[b]);
                    }
                    if a < before.len() && b < before.len() {
                    } else if a < before.len() {
                        assert(bv.contains(sv[a]));
                    } else if b < before.len() {
                        assert(bv.contains(sv[b]));
                    }
                }
            }
        }
        let p = string_of(&chars_of(self.watches[i].path.as_str()));
        self.watches.set(i, WatchRecord { path: p, subs });
        proof {
            lemma_pairs_map_update(old_pairs, i as int, ns);
            assert(self.pairs() =~= old_pairs.update(i as int, (path, ns)));
            assert forall|j: int| 0 <= j < self.watches@.len() implies (#[trigger] self.watches@[j]).subs@.len() > 0
                && string_views(self.watches@[j].subs@).no_duplicates() by {
                if j != i {
                    assert(self.watches@[j] == old(self).watches@[j]);
                }
            }
        }
    }

    /// Records a new watch on `path`, which is not watched yet, with
    /// `sender` as its one subscriber.
    pub fn add_watch(&mut self, path: &str, sender: &str)
        requires
            old(self).wf(),
            !old(self).view().contains_key(path@),
        ensures
            final(self).wf(),
            final(self).view() == old(self).view().insert(path@, set![sender@]),
    {
        let ghost old_pairs = self.pairs();
        let mut subs: Vec<String> = Vec::new();
        subs.push(string_of(&chars_of(sender)));
        let ghost ns = id_set(subs@);
        proof {
            assert(string_views(subs@) =~= seq![sender@]);
            assert(ns =~= set![sender@]) by {
                assert forall|k: Seq<char>| #[trigger] ns.contains(k) <==> set![sender@].contains(k) by {
                    if k == sender@ {
                        assert(string_views(subs@)[0] == k);
                    }
                }
            }
        }
        let rec = WatchRecord { path: string_of(&chars_of(path)), subs };
        self.watches.push(rec);
        proof {
            lemma_pairs_map_push(old_pairs, path@, ns);
            assert(self.pairs() =~= old_pairs.push((path@, ns)));
            assert forall|j: int| 0 <= j < self.watches@.len() implies (#[trigger] self.watches@[j]).subs@.len() > 0
                && string_views(self.watches@[j].subs@).no_duplicates() by {
                if j < old(self).watches@.len() {
                    assert(self.watches@[j] == old(self).watches@[j]);
                } else {
                    assert(string_views(self.watches@[j].subs@) =~= seq![sender@]);
                }
            }
        }
    }

    /// Frame `key` of connection `sender` changes to `new_path`: the old
    /// path is given up as `unwatch` says, the frame takes the new path, and
    /// the connection follows the new path's watch if there is one. When
    /// there is none, the step says that it is to be created.
    pub fn watch(&mut self, frames: &mut FrameSet, key: &str, new_path: &str, sender: &str) -> (r: WatchStep)
        requires
            old(self).wf(),
            is_frame_key(key@),
        ensures
            final(self).wf(),
            final(frames)@ == old(frames)@.update(key@, new_path@),
            r.create == !unwatch_view(old(self).view(), old(frames)@, key@, new_path@, sender@).contains_key(new_path@),
            r.create ==> final(self).view() == unwatch_view(old(self).view(), old(frames)@, key@, new_path@, sender@),
            !r.create ==> final(self).view() == cd_view(old(self).view(), old(frames)@, key@, new_path@, sender@).0,
            r.stopped matches Some(p) ==> old(self).view().contains_key(p@) && !unwatch_view(
                old(self).view(),
                old(frames)@,
                key@,
                new_path@,
                sender@,
            ).contains_key(p@),
    {
        let stopped = self.unwatch(frames, key, new_path, sender);
        frames.update_path(key, new_path);
        let nk = chars_of(new_path);
        let sc = chars_of(sender);
        match self.find(&nk) {
            Some(i) => {
                proof {
                    lemma_pairs_map_index(self.pairs(), i as int);
                }
                self.add_at(i, &sc);
                WatchStep { stopped, create: false }
            },
            None => WatchStep { stopped, create: true },
        }
    }

    /// Connection `sender`, whose frames are `frames`, is gone: it stops
    /// following both frames' paths. The paths whose watches lost their last
    /// subscriber come back.
    pub fn remove_subscriber(&mut self, frames: &FrameSet, sender: &str) -> (r: Vec<String>)
        requires
            old(self).wf(),
        ensures
            final(self).wf(),
            final(self).view() == remove_view(old(self).view(), frames@, sender@),
            forall|i: int| 0 <= i < r@.len() ==> old(self).view().contains_key(#[trigger] r@[i]@) && !final(self).view().contains_key(r@[i]@),
    {
        let (a, b) = frames.both_paths();
        let mut r: Vec<String> = Vec::new();
        let ghost m0 = self.view();
        if self.drop_subscriber(a, sender) {
            r.push(string_of(&chars_of(a)));
        }
        let ghost m1 = self.view();
        let ghost r1 = r@;
        if self.drop_subscriber(b, sender) {
            r.push(string_of(&chars_of(b)));
        }
        proof {
            assert forall|k: Seq<char>| !m1.contains_key(k) implies !self.view().contains_key(k) by {}
            assert forall|k: Seq<char>| #[trigger] m1.contains_key(k) implies m0.contains_key(k) by {}
            assert forall|i: int| 0 <= i < r@.len() implies m0.contains_key(#[trigger] r@[i]@) && !self.view().contains_key(r@[i]@) by {
                if i < r1.len() {
                    assert(r@[i] == r1[i]);
                }
            }
        }
        r
    }

    /// What one poll of `path` sends, and to whom. Unchanged: nothing. A
    /// change: every subscriber gets the same path and entries. A failure:
    /// the watch is gone and every subscriber that it had gets the error.
    pub fn on_poll(&mut self, path: &str, result: PollResult) -> (r: Vec<(String, Message)>)
        requires
            old(self).wf(),
        ensures
            final(self).wf(),
            result is Failed ==> final(self).view() == old(self).view().remove(path@),
            !(result is Failed) ==> final(self).view() == old(self).view(),
            result is Unchanged || !old(self).view().contains_key(path@) ==> r@.len() == 0,
            old(self).view().contains_key(path@) && !(result is Unchanged) ==> r@.map_values(
                |x: (String, Message)| x.0@,
            ).to_set() == old(self).view()[path@],
            forall|i: int| 0 <= i < r@.len() ==> poll_message(#[trigger] r@[i].1, path@, result),
    {
        let subs = match self.subscribers(path) {
            Some(v) => v,
            None => {
                match result {
                    PollResult::Failed(_) => {
                        self.remove_watch(path);
                    },
                    _ => {},
                }
                return Vec::new();
            },
        };
        if let PollResult::Failed(_) = &result {
            self.remove_watch(path);
        }
        let mut out: Vec<(String, Message)> = Vec::new();
        if let PollResult::Unchanged = &result {
            return out;
        }
        let ghost ids = crate::path::string_views(subs@);
        let mut i: usize = 0;
        while i < subs.len()
            invariant
                i <= subs@.len(),
                ids == crate::path::string_views(subs@),
                !(result is Unchanged),
                out@.map_values(|x: (String, Message)| x.0@) == ids.subrange(0, i as int),
                forall|k: int| 0 <= k < out@.len() ==> poll_message(#[trigger] out@[k].1, path@, result),
            decreases subs@.len() - i,
        {
            let m = match &result {
                PollResult::Changed(es) => Message::dir_update(path, copy_entries(es)),
                PollResult::Failed(msg) => {
                    let err = ServerError::Watch(WatchError::Dir(string_of(&chars_of(msg.as_str())), string_of(&chars_of(path))));
                    Message::watch_error(&err, msg.as_str(), path)
                },
                PollResult::Unchanged => Message::dir_update(path, Vec::new()),
            };
            let ghost before = out@;
            out.push((string_of(&chars_of(subs[i].as_str())), m));
            assert(out@.map_values(|x: (String, Message)| x.0@) =~= before.map_values(|x: (String, Message)| x.0@).push(ids[i as int]));
            i += 1;
            assert(out@.map_values(|x: (String, Message)| x.0@) =~= ids.subrange(0, i as int));
        }
        assert(ids.subrange(0, subs@.len() as int) =~= ids);
        out
    }

    /// Handles a notice from a watch: a watch that stopped is gone.
    pub fn control(&mut self, ctrl: &WatchControl)
        requires
            old(self).wf(),
        ensures
            final(self).wf(),
            final(self).view() == old(self).view().remove(ctrl.path@),
    {
        match ctrl.status {
            WatchStatus::Abort => self.remove_watch(ctrl.path.as_str()),
        }
    }

    /// The watch on `path` failed and is gone.
    pub fn remove_watch(&mut self, path: &str)
        requires
            old(self).wf(),
        ensures
            final(self).wf(),
            final(self).view() == old(self).view().remove(path@),
    {
        let key = chars_of(path);
        let ghost old_pairs = self.pairs();
        match self.find(&key) {
            Some(i) => {
                self.watches.remove(i);
                proof {
                    lemma_pairs_map_remove(old_pairs, i as int);
                    assert(self.pairs() =~= old_pairs.remove(i as int));
                    assert forall|j: int| 0 <= j < self.watches@.len() implies (#[trigger] self.watches@[j]).subs@.len() > 0
                        && string_views(self.watches@[j].subs@).no_duplicates() by {
                        if j < i {
                            assert(self.watches@[j] == old(self).watches@[j]);
                        } else {
                            assert(self.watches@[j] == old(self).watches@[j + 1]);
                        }
                    }
                }
            },
            None => {
                assert(self.view() =~= self.view().remove(path@));
            },
        }
    }
}

} // verus!
