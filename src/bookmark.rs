//! The bookmark list: names for paths, newest first, each name and each
//! path at most once.

use vstd::prelude::*;

use crate::errors::{BookmarkError, ServerError};
use crate::text::{chars_eq, chars_of, string_of};

verus! {

/// A bookmark: a name for a path.
pub struct Bookmark {
    pub name: String,
    pub path: String,
}

impl View for Bookmark {
    type V = (Seq<char>, Seq<char>);

    open spec fn view(&self) -> (Seq<char>, Seq<char>) {
        (self.name@, self.path@)
    }
}

pub open spec fn bookmark_views(v: Seq<Bookmark>) -> Seq<(Seq<char>, Seq<char>)> {
    v.map_values(|b: Bookmark| b@)
}

pub open spec fn has_bookmark_name(d: Seq<(Seq<char>, Seq<char>)>, name: Seq<char>) -> bool {
    exists|i: int| 0 <= i < d.len() && #[trigger] d[i].0 == name
}

pub open spec fn has_bookmark_path(d: Seq<(Seq<char>, Seq<char>)>, path: Seq<char>) -> bool {
    exists|i: int| 0 <= i < d.len() && #[trigger] d[i].1 == path
}

/// No two bookmarks share a name, and no two share a path.
pub open spec fn bookmarks_valid(d: Seq<(Seq<char>, Seq<char>)>) -> bool {
    forall|i: int, j: int| 0 <= i < j < d.len() ==> #[trigger] d[i].0 != #[trigger] d[j].0 && d[i].1 != d[j].1
}

/// Whether `action` may go ahead on the list `d`: `get` always; `rename`
/// not when the name is taken by any bookmark; `add` not when the path has a
/// bookmark; any other action only when the path has one.
pub open spec fn validate_view(d: Seq<(Seq<char>, Seq<char>)>, action: Seq<char>, name: Seq<char>, path: Seq<char>) -> Result<(), BookmarkError> {
    if action == "get"@ {
        Ok(())
    } else if action == "rename"@ && has_bookmark_name(d, name) {
        Err(BookmarkError::Exists)
    } else if action == "add"@ && has_bookmark_path(d, path) {
        Err(BookmarkError::Exists)
    } else if action != "add"@ && !has_bookmark_path(d, path) {
        Err(BookmarkError::NotFound)
    } else {
        Ok(())
    }
}

/// Whether a bookmark is for another path than `path`.
pub open spec fn other_path(path: Seq<char>) -> spec_fn((Seq<char>, Seq<char>)) -> bool {
    |b: (Seq<char>, Seq<char>)| b.1 != path
}

/// The list once `action` went ahead: `add` puts the bookmark first,
/// `rename` gives the bookmark of `path` the new name, `delete` drops the
/// bookmark of `path`; anything else leaves the list as it is.
pub open spec fn applied_view(d: Seq<(Seq<char>, Seq<char>)>, action: Seq<char>, name: Seq<char>, path: Seq<char>) -> Seq<(Seq<char>, Seq<char>)> {
    if action == "add"@ {
        seq![(name, path)] + d
    } else if action == "rename"@ {
        Seq::new(d.len(), |i: int| if d[i].1 == path { (name, d[i].1) } else { d[i] })
    } else if action == "delete"@ {
        d.filter(other_path(path))
    } else {
        d
    }
}

/// Where the bookmark list is kept, if anywhere.
pub struct BookmarkManager {
    path: Option<String>,
}

impl BookmarkManager {
    pub closed spec fn file(&self) -> Option<Seq<char>> {
        match self.path {
            Some(p) => Some(p@),
            None => None,
        }
    }

    /// A manager for the list kept at `path`, or for no list.
    pub fn new(path: &Option<String>) -> (r: BookmarkManager)
        ensures
            r.file() == match path {
                Some(p) => Some(p@),
                None => None::<Seq<char>>,
            },
    {
        match path {
            Some(p) => BookmarkManager { path: Some(string_of(&chars_of(p.as_str()))) },
            None => BookmarkManager { path: None },
        }
    }

    /// The file of the list; `NotAvailable` when none is configured.
    pub fn path(&self) -> (r: Result<&str, BookmarkError>)
        ensures
            match self.file() {
                Some(p) => r matches Ok(s) && s@ == p,
                None => r == Err::<&str, BookmarkError>(BookmarkError::NotAvailable),
            },
    {
        match &self.path {
            Some(p) => Ok(p.as_str()),
            None => Err(BookmarkError::NotAvailable),
        }
    }

    /// The error to report for a failed bookmark action: the bookmark
    /// errors that say what went wrong stay as they are; anything else
    /// (reading, parsing, writing the file) becomes `IO` with its text `msg`.
    pub fn to_error(err: ServerError, msg: &str) -> (r: BookmarkError)
        ensures
            match err {
                ServerError::Bookmark(BookmarkError::NotAvailable) => r == BookmarkError::NotAvailable,
                ServerError::Bookmark(BookmarkError::NotFound) => r == BookmarkError::NotFound,
                ServerError::Bookmark(BookmarkError::Exists) => r == BookmarkError::Exists,
                _ => r matches BookmarkError::IO(m) && m@ == msg@,
            },
    {
        match err {
            ServerError::Bookmark(BookmarkError::NotAvailable) => BookmarkError::NotAvailable,
            ServerError::Bookmark(BookmarkError::NotFound) => BookmarkError::NotFound,
            ServerError::Bookmark(BookmarkError::Exists) => BookmarkError::Exists,
            _ => BookmarkError::IO(string_of(&chars_of(msg))),
        }
    }

    /// Checks that `action` may go ahead on the list `data`.
    pub fn validate(data: &Vec<Bookmark>, action: &str, name: &str, path: &str) -> (r: Result<(), BookmarkError>)
        ensures
            r == validate_view(bookmark_views(data@), action@, name@, path@),
    {
        proof {
            reveal_strlit("get");
            reveal_strlit("add");
            reveal_strlit("rename");
        }
        let a = chars_of(action);
        if is_word(&a, "get") {
            return Ok(());
        }
        let nc = chars_of(name);
        let pc = chars_of(path);
        let ghost d = bookmark_views(data@);
        let mut name_taken = false;
        let mut path_taken = false;
        let mut i: usize = 0;
        while i < data.len()
            invariant
                i <= data@.len(),
                d == bookmark_views(data@),
                nc@ == name@,
                pc@ == path@,
                name_taken == has_bookmark_name(d.subrange(0, i as int), name@),
                path_taken == has_bookmark_path(d.subrange(0, i as int), path@),
            decreases data@.len() - i,
        {
            let ghost pre = d.subrange(0, i as int);
            let ghost nxt = d.subrange(0, i as int + 1);
            assert(nxt[i as int] == data@[i as int]@);
            if chars_eq(&chars_of(data[i].name.as_str()), &nc) {
                name_taken = true;
            }
            if chars_eq(&chars_of(data[i].path.as_str()), &pc) {
                path_taken = true;
            }
            proof {
                if name_taken && nxt[i as int].0 != name@ {
                    let w = choose|w: int| 0 <= w < pre.len() && #[trigger] pre[w].0 == name@;
                    assert(nxt[w] == pre[w]);
                }
                if !name_taken {
                    assert forall|w: int| 0 <= w < nxt.len() implies #[trigger] nxt[w].0 != name@ by {
                        if w < i {
                            assert(nxt[w] == pre[w]);
                        }
                    }
                }
                if path_taken && nxt[i as int].1 != path@ {
                    let w = choose|w: int| 0 <= w < pre.len() && #[trigger] pre[w].1 == path@;
                    assert(nxt[w] == pre[w]);
                }
                if !path_taken {
                    assert forall|w: int| 0 <= w < nxt.len() implies #[trigger] nxt[w].1 != path@ by {
                        if w < i {
                            assert(nxt[w] == pre[w]);
                        }
                    }
                }
            }
            i += 1;
        }
        assert(d.subrange(0, data@.len() as int) =~= d);
        let is_add = is_word(&a, "add");
        if is_word(&a, "rename") && name_taken {
            return Err(BookmarkError::Exists);
        }
        if is_add && path_taken {
            return Err(BookmarkError::Exists);
        }
        if !is_add && !path_taken {
            return Err(BookmarkError::NotFound);
        }
        Ok(())
    }

    /// Carries out `action` on the list `data` once it was validated, and
    /// gives the list that is to be saved and sent back.
    pub fn process(data: Vec<Bookmark>, action: &str, name: &str, path: &str) -> (r: Result<Vec<Bookmark>, BookmarkError>)
        ensures
            match validate_view(bookmark_views(data@), action@, name@, path@) {
                Ok(_) => r matches Ok(v) && bookmark_views(v@) == applied_view(bookmark_views(data@), action@, name@, path@),
                Err(e) => r == Err::<Vec<Bookmark>, BookmarkError>(e),
            },
    {
        proof {
            reveal_strlit("add");
            reveal_strlit("rename");
            reveal_strlit("delete");
        }
        let ghost d = bookmark_views(data@);
        match BookmarkManager::validate(&data, action, name, path) {
            Err(e) => return Err(e),
            Ok(_) => {},
        }
        let a = chars_of(action);
        let pc = chars_of(path);
        if is_word(&a, "add") {
            let mut out: Vec<Bookmark> = Vec::new();
            out.push(Bookmark { name: string_of(&chars_of(name)), path: string_of(&pc) });
            let mut rest = data;
            let ghost head = bookmark_views(out@);
            assert(head =~= seq![(name@, path@)]);
            while rest.len() > 0
                invariant
                    bookmark_views(out@) + bookmark_views(rest@) == seq![(name@, path@)] + d,
                decreases rest@.len(),
            {
                let ghost bo = bookmark_views(out@);
                let ghost br = bookmark_views(rest@);
                let b = rest.remove(0);
                out.push(b);
                assert(bookmark_views(out@) =~= bo.push(br[0]));
                assert(bookmark_views(rest@) =~= br.drop_first());
                assert(bookmark_views(out@) + bookmark_views(rest@) =~= bo + br);
            }
            assert(bookmark_views(rest@) =~= Seq::<(Seq<char>, Seq<char>)>::empty());
            assert(bookmark_views(out@) =~= seq![(name@, path@)] + d);
            Ok(out)
        } else if is_word(&a, "rename") {
            let mut out = data;
            let mut i: usize = 0;
            while i < out.len()
                invariant
                    i <= out@.len(),
                    out@.len() == d.len(),
                    pc@ == path@,
                    forall|j: int| 0 <= j < i ==> #[trigger] bookmark_views(out@)[j] == (if d[j].1 == path@ { (name@, d[j].1) } else { d[j] }),
                    forall|j: int| i <= j < out@.len() ==> #[trigger] bookmark_views(out@)[j] == d[j],
                decreases out@.len() - i,
            {
                assert(bookmark_views(out@)[i as int] == d[i as int]);
                let ghost prev = bookmark_views(out@);
                if chars_eq(&chars_of(out[i].path.as_str()), &pc) {
                    let p = string_of(&chars_of(out[i].path.as_str()));
                    let ghost before = bookmark_views(out@);
                    out.set(i, Bookmark { name: string_of(&chars_of(name)), path: p });
                    assert forall|j: int| 0 <= j < out@.len() && j != i implies #[trigger] bookmark_views(out@)[j] == before[j] by {}
                    assert(bookmark_views(out@)[i as int] == (name@, d[i as int].1));
                }
                assert forall|j: int| 0 <= j < i + 1 implies #[trigger] bookmark_views(out@)[j] == (if d[j].1 == path@ { (name@, d[j].1) } else { d[j] }) by {
                    if j < i {
                        assert(bookmark_views(out@)[j] == prev[j]);
                    }
                }
                i += 1;
            }
            assert(bookmark_views(out@) =~= applied_view(d, action@, name@, path@));
            Ok(out)
        } else if is_word(&a, "delete") {
            let mut out: Vec<Bookmark> = Vec::new();
            let mut rest = data;
            let ghost f = other_path(path@);
            let ghost mut seen: Seq<(Seq<char>, Seq<char>)> = Seq::empty();
            while rest.len() > 0
                invariant
                    pc@ == path@,
                    f == other_path(path@),
                    seen + bookmark_views(rest@) == d,
                    bookmark_views(out@) == seen.filter(f),
                decreases rest@.len(),
            {
                let ghost br = bookmark_views(rest@);
                let b = rest.remove(0);
                proof {
                    assert(bookmark_views(rest@) =~= br.drop_first());
                    let old_seen = seen;
                    old_seen.lemma_filter_push(b@, f);
                    seen = seen.push(b@);
                    assert(seen.drop_last() =~= old_seen);
                    assert(seen + bookmark_views(rest@) =~= d);
                }
                assert(seen.last() == b@);
                if !chars_eq(&chars_of(b.path.as_str()), &pc) {
                    let ghost bo = bookmark_views(out@);
                    out.push(b);
                    assert(bookmark_views(out@) =~= bo.push(seen.last()));
                    assert(seen.filter(f) == seen.drop_last().filter(f).push(seen.last()));
                } else {
                    assert(seen.filter(f) == seen.drop_last().filter(f));
                }
            }
            assert(seen =~= d);
            Ok(out)
        } else {
            Ok(data)
        }
    }
}

/// Whether `a` spells the word `w`.
fn is_word(a: &Vec<char>, w: &str) -> (r: bool)
    ensures
        r == (a@ == w@),
{
    chars_eq(a, &chars_of(w))
}

/// A list that holds each name and each path at most once still does after
/// an action that went ahead, unless `add` was given a name that is taken;
/// and `add` puts the new bookmark first.
pub proof fn lemma_bookmarks_stay_valid(
    d: Seq<(Seq<char>, Seq<char>)>,
    action: Seq<char>,
    name: Seq<char>,
    path: Seq<char>,
)
    requires
        bookmarks_valid(d),
        validate_view(d, action, name, path) is Ok,
        action == "add"@ ==> !has_bookmark_name(d, name),
    ensures
        bookmarks_valid(applied_view(d, action, name, path)),
        action == "add"@ ==> applied_view(d, action, name, path)[0] == (name, path),
{
    reveal_strlit("get");
    reveal_strlit("add");
    reveal_strlit("rename");
    reveal_strlit("delete");
    let r = applied_view(d, action, name, path);
    assert("add"@[0] != "get"@[0] && "rename"@[0] != "get"@[0] && "delete"@.len() != "get"@.len());
    assert("rename"@[0] != "add"@[0] && "delete"@.len() != "add"@.len());
    if action == "add"@ {
        assert forall|i: int, j: int| 0 <= i < j < r.len() implies #[trigger] r[i].0 != #[trigger] r[j].0 && r[i].1 != r[j].1 by {
            assert(r[j] == d[j - 1]);
            if i == 0 {
                assert(!has_bookmark_path(d, path));
                assert(d[j - 1].1 != path);
                assert(d[j - 1].0 != name);
            } else {
                assert(r[i] == d[i - 1]);
            }
        }
    } else if action == "rename"@ {
        assert(!has_bookmark_name(d, name));
        assert forall|i: int, j: int| 0 <= i < j < r.len() implies #[trigger] r[i].0 != #[trigger] r[j].0 && r[i].1 != r[j].1 by {
            assert(d[i].0 != d[j].0 && d[i].1 != d[j].1);
            assert(d[i].0 != name && d[j].0 != name);
        }
    } else if action == "delete"@ {
        lemma_filter_keeps_valid(d, other_path(path));
    }
}

/// No two bookmarks share a path.
pub open spec fn paths_unique(d: Seq<(Seq<char>, Seq<char>)>) -> bool {
    forall|i: int, j: int| 0 <= i < j < d.len() ==> #[trigger] d[i].1 != #[trigger] d[j].1
}

/// A list whose paths are each there once still has each path once after
/// any action that went ahead, whatever the names.
pub proof fn lemma_paths_stay_unique(
    d: Seq<(Seq<char>, Seq<char>)>,
    action: Seq<char>,
    name: Seq<char>,
    path: Seq<char>,
)
    requires
        paths_unique(d),
        validate_view(d, action, name, path) is Ok,
    ensures
        paths_unique(applied_view(d, action, name, path)),
{
    reveal_strlit("get");
    reveal_strlit("add");
    reveal_strlit("rename");
    reveal_strlit("delete");
    assert("add"@[0] != "get"@[0] && "rename"@[0] != "get"@[0] && "delete"@.len() != "get"@.len());
    assert("rename"@[0] != "add"@[0] && "delete"@.len() != "add"@.len());
    let r = applied_view(d, action, name, path);
    if action == "add"@ {
        assert forall|i: int, j: int| 0 <= i < j < r.len() implies #[trigger] r[i].1 != #[trigger] r[j].1 by {
            assert(r[j] == d[j - 1]);
            if i == 0 {
                assert(!has_bookmark_path(d, path));
                assert(d[j - 1].1 != path);
            } else {
                assert(r[i] == d[i - 1]);
            }
        }
    } else if action == "rename"@ {
        assert forall|i: int, j: int| 0 <= i < j < r.len() implies #[trigger] r[i].1 != #[trigger] r[j].1 by {
            assert(d[i].1 != d[j].1);
        }
    } else if action == "delete"@ {
        reveal(Seq::filter);
        lemma_filter_keeps_paths(d, other_path(path));
    }
}

proof fn lemma_filter_keeps_paths(d: Seq<(Seq<char>, Seq<char>)>, f: spec_fn((Seq<char>, Seq<char>)) -> bool)
    requires
        paths_unique(d),
    ensures
        paths_unique(d.filter(f)),
        forall|k: int| 0 <= k < d.filter(f).len() ==> d.contains(#[trigger] d.filter(f)[k]),
    decreases d.len(),
{
    reveal(Seq::filter);
    if d.len() > 0 {
        let t = d.drop_last();
        assert(paths_unique(t)) by {
            assert forall|i: int, j: int| 0 <= i < j < t.len() implies #[trigger] t[i].1 != #[trigger] t[j].1 by {
                assert(t[i] == d[i] && t[j] == d[j]);
            }
        }
        lemma_filter_keeps_paths(t, f);
        let ft = t.filter(f);
        let fd = d.filter(f);
        assert forall|k: int| 0 <= k < ft.len() implies #[trigger] ft[k].1 != d.last().1 by {
            assert(t.contains(ft[k]));
            let i = choose|i: int| 0 <= i < t.len() && t[i] == ft[k];
            assert(d[i] == t[i]);
            assert(d[i].1 != d[d.len() - 1].1);
        }
        if f(d.last()) {
            assert(fd == ft.push(d.last()));
            assert forall|i: int, j: int| 0 <= i < j < fd.len() implies #[trigger] fd[i].1 != #[trigger] fd[j].1 by {
                assert(fd[i] == ft[i]);
                if j < ft.len() {
                    assert(fd[j] == ft[j]);
                }
            }
            assert forall|k: int| 0 <= k < fd.len() implies d.contains(#[trigger] fd[k]) by {
                if k < ft.len() {
                    assert(fd[k] == ft[k]);
                    let i = choose|i: int| 0 <= i < t.len() && t[i] == ft[k];
                    assert(d[i] == t[i]);
                } else {
                    assert(d[d.len() - 1] == fd[k]);
                }
            }
        } else {
            assert(fd == ft);
            assert forall|k: int| 0 <= k < fd.len() implies d.contains(#[trigger] fd[k]) by {
                let i = choose|i: int| 0 <= i < t.len() && t[i] == ft[k];
                assert(d[i] == t[i]);
            }
        }
    }
}

proof fn lemma_filter_keeps_valid(d: Seq<(Seq<char>, Seq<char>)>, f: spec_fn((Seq<char>, Seq<char>)) -> bool)
    requires
        bookmarks_valid(d),
    ensures
        bookmarks_valid(d.filter(f)),
        forall|k: int| 0 <= k < d.filter(f).len() ==> d.contains(#[trigger] d.filter(f)[k]),
    decreases d.len(),
{
    reveal(Seq::filter);
    if d.len() > 0 {
        let t = d.drop_last();
        assert(bookmarks_valid(t)) by {
            assert forall|i: int, j: int| 0 <= i < j < t.len() implies #[trigger] t[i].0 != #[trigger] t[j].0 && t[i].1 != t[j].1 by {
                assert(t[i] == d[i] && t[j] == d[j]);
            }
        }
        lemma_filter_keeps_valid(t, f);
        let ft = t.filter(f);
        let fd = d.filter(f);
        assert forall|k: int| 0 <= k < ft.len() implies #[trigger] ft[k] != d.last() && ft[k].0 != d.last().0 && ft[k].1 != d.last().1 by {
            assert(t.contains(ft[k]));
            let i = choose|i: int| 0 <= i < t.len() && t[i] == ft[k];
            assert(d[i] == t[i]);
            assert(d[i].0 != d[d.len() - 1].0);
        }
        if f(d.last()) {
            assert(fd == ft.push(d.last()));
            assert forall|i: int, j: int| 0 <= i < j < fd.len() implies #[trigger] fd[i].0 != #[trigger] fd[j].0 && fd[i].1 != fd[j].1 by {
                assert(fd[i] == ft[i]);
                if j < ft.len() {
                    assert(fd[j] == ft[j]);
                }
            }
            assert forall|k: int| 0 <= k < fd.len() implies d.contains(#[trigger] fd[k]) by {
                if k < ft.len() {
                    assert(fd[k] == ft[k]);
                    let i = choose|i: int| 0 <= i < t.len() && t[i] == ft[k];
                    assert(d[i] == t[i]);
                } else {
                    assert(d[d.len() - 1] == fd[k]);
                }
            }
        } else {
            assert(fd == ft);
            assert forall|k: int| 0 <= k < fd.len() implies d.contains(#[trigger] fd[k]) by {
                let i = choose|i: int| 0 <= i < t.len() && t[i] == ft[k];
                assert(d[i] == t[i]);
            }
        }
    }
}

} // verus!
