//! Listing a directory inside an archive as if the archive's root were a
//! directory, inferring directories that the archive holds no entry for.

use vstd::prelude::*;

use crate::entry::{
    default_time_text, record_entry, ArchiveRecord, Entry, EntryView, RecordView, default_time,
};
use crate::format::{ls_style_size, size_text};
use crate::path::{parts_of, plain_join};
use crate::text::{chars_eq, chars_of, has_prefix, string_of, suffix_from};

verus! {

broadcast use vstd::seq_lib::group_to_multiset_ensures, vstd::multiset::group_multiset_axioms;

pub uninterp spec fn pattern_matches(pattern: Seq<char>, text: Seq<char>) -> bool;

/// Relies on `regex::Regex::new` and `Regex::is_match`: whether the regular
/// expression `pattern` matches somewhere in `text`; a pattern that does not
/// compile matches nothing.
#[verifier::external_body]
fn filter_matches(pattern: &str, text: &str) -> (r: bool)
    ensures
        r == pattern_matches(pattern@, text@),
{
    regex::Regex::new(pattern).map_or(false, |re| re.is_match(text))
}

// ---------------------------------------------------------------------------
// order of names

/// Lexicographic order of names by code point, the order of `str::cmp`.
pub open spec fn name_le(a: Seq<char>, b: Seq<char>) -> bool
    decreases a.len(),
{
    if a.len() == 0 {
        true
    } else if b.len() == 0 {
        false
    } else if a[0] != b[0] {
        a[0] < b[0]
    } else {
        name_le(a.drop_first(), b.drop_first())
    }
}

pub proof fn lemma_name_le_total(a: Seq<char>, b: Seq<char>)
    ensures
        name_le(a, b) || name_le(b, a),
    decreases a.len(),
{
    if a.len() > 0 && b.len() > 0 && a[0] == b[0] {
        lemma_name_le_total(a.drop_first(), b.drop_first());
    }
}

pub proof fn lemma_name_le_transitive(a: Seq<char>, b: Seq<char>, c: Seq<char>)
    requires
        name_le(a, b),
        name_le(b, c),
    ensures
        name_le(a, c),
    decreases a.len(),
{
    if a.len() > 0 && b.len() > 0 && c.len() > 0 && a[0] == b[0] && b[0] == c[0] {
        lemma_name_le_transitive(a.drop_first(), b.drop_first(), c.drop_first());
    }
}

fn name_le_exec(a: &Vec<char>, b: &Vec<char>) -> (r: bool)
    ensures
        r == name_le(a@, b@),
{
    let mut i: usize = 0;
    assert(a@.subrange(0, a@.len() as int) =~= a@);
    assert(b@.subrange(0, b@.len() as int) =~= b@);
    while i < a.len() && i < b.len() && a[i] == b[i]
        invariant
            i <= a@.len(),
            i <= b@.len(),
            name_le(a@, b@) == name_le(a@.subrange(i as int, a@.len() as int), b@.subrange(i as int, b@.len() as int)),
        decreases a@.len() - i,
    {
        let ghost sa = a@.subrange(i as int, a@.len() as int);
        let ghost sb = b@.subrange(i as int, b@.len() as int);
        assert(sa.drop_first() =~= a@.subrange(i as int + 1, a@.len() as int));
        assert(sb.drop_first() =~= b@.subrange(i as int + 1, b@.len() as int));
        i += 1;
    }
    let ghost sa = a@.subrange(i as int, a@.len() as int);
    let ghost sb = b@.subrange(i as int, b@.len() as int);
    if i == a.len() {
        true
    } else if i == b.len() {
        false
    } else {
        assert(sa[0] == a@[i as int] && sb[0] == b@[i as int]);
        a[i] < b[i]
    }
}

pub proof fn lemma_name_le_antisymmetric(a: Seq<char>, b: Seq<char>)
    requires
        name_le(a, b),
        name_le(b, a),
    ensures
        a == b,
    decreases a.len(),
{
    if a.len() > 0 && b.len() > 0 {
        lemma_name_le_antisymmetric(a.drop_first(), b.drop_first());
        assert(a[0] == b[0]);
        assert(a =~= seq![a[0]] + a.drop_first());
        assert(b =~= seq![b[0]] + b.drop_first());
    } else {
        assert(a =~= b);
    }
}

/// The entries are in strictly increasing order of their names: sorted,
/// and no name twice.
pub open spec fn names_increasing(s: Seq<EntryView>) -> bool {
    forall|i: int, j: int| 0 <= i < j < s.len() ==> name_le(#[trigger] s[i].name, #[trigger] s[j].name)
        && s[i].name != s[j].name
}

/// The entries are in order of their names.
pub open spec fn names_sorted(s: Seq<EntryView>) -> bool {
    forall|i: int, j: int| 0 <= i < j < s.len() ==> name_le(#[trigger] s[i].name, #[trigger] s[j].name)
}

pub open spec fn entry_views(v: Seq<Entry>) -> Seq<EntryView> {
    v.map_values(|e: Entry| e@)
}

/// Inserts `e` after every entry whose name is not above its own.
pub(crate) fn insert_sorted(v: &mut Vec<Entry>, e: Entry)
    requires
        names_sorted(entry_views(old(v)@)),
    ensures
        names_sorted(entry_views(final(v)@)),
        entry_views(final(v)@).to_multiset() == entry_views(old(v)@).to_multiset().insert(e@),
{
    let name = chars_of(e.name.as_str());
    let mut j: usize = 0;
    let mut done = false;
    while j < v.len() && !done
        invariant
            j <= v@.len(),
            name@ == e@.name,
            forall|i: int| 0 <= i < j ==> name_le(#[trigger] v@[i]@.name, name@),
            done ==> j < v@.len() && !name_le(v@[j as int]@.name, name@),
        decreases v@.len() - j + (if done { 0int } else { 1int }),
    {
        let other = chars_of(v[j].name.as_str());
        if !name_le_exec(&other, &name) {
            done = true;
        } else {
            j += 1;
        }
    }
    let ghost old_views = entry_views(v@);
    proof {
        if j < v@.len() {
            lemma_name_le_total(v@[j as int]@.name, name@);
        }
    }
    v.insert(j, e);
    let ghost nv = entry_views(v@);
    assert(nv =~= old_views.insert(j as int, e@));
    proof {
        vstd::seq_lib::to_multiset_insert(old_views, j as int, e@);
        assert forall|a: int, b: int| 0 <= a < b < nv.len() implies name_le(#[trigger] nv[a].name, #[trigger] nv[b].name) by {
            if b < j {
                assert(nv[a] == old_views[a] && nv[b] == old_views[b]);
            } else if b == j {
                assert(nv[a] == old_views[a]);
            } else if a == j {
                assert(nv[b] == old_views[b - 1]);
                assert(name_le(name@, old_views[j as int].name));
                if b - 1 > j {
                    lemma_name_le_transitive(name@, old_views[j as int].name, old_views[b - 1].name);
                }
            } else if a < j {
                assert(nv[a] == old_views[a] && nv[b] == old_views[b - 1]);
            } else {
                assert(nv[a] == old_views[a - 1] && nv[b] == old_views[b - 1]);
            }
        }
    }
}

/// Inserts `e`, whose name no entry has, where its name belongs.
fn insert_strict(v: &mut Vec<Entry>, e: Entry)
    requires
        names_increasing(entry_views(old(v)@)),
        !has_name(entry_views(old(v)@), e@.name),
    ensures
        names_increasing(entry_views(final(v)@)),
        entry_views(final(v)@).to_multiset() == entry_views(old(v)@).to_multiset().insert(e@),
        exists|j: int| 0 <= j <= old(v)@.len() && entry_views(final(v)@) == entry_views(old(v)@).insert(j, e@),
{
    let name = chars_of(e.name.as_str());
    let mut j: usize = 0;
    let mut done = false;
    while j < v.len() && !done
        invariant
            j <= v@.len(),
            name@ == e@.name,
            forall|i: int| 0 <= i < j ==> name_le(#[trigger] v@[i]@.name, name@),
            done ==> j < v@.len() && !name_le(v@[j as int]@.name, name@),
        decreases v@.len() - j + (if done { 0int } else { 1int }),
    {
        let other = chars_of(v[j].name.as_str());
        if !name_le_exec(&other, &name) {
            done = true;
        } else {
            j += 1;
        }
    }
    let ghost old_views = entry_views(v@);
    proof {
        if j < v@.len() {
            lemma_name_le_total(v@[j as int]@.name, name@);
        }
    }
    v.insert(j, e);
    let ghost nv = entry_views(v@);
    assert(nv =~= old_views.insert(j as int, e@));
    proof {
        vstd::seq_lib::to_multiset_insert(old_views, j as int, e@);
        assert forall|k: int| 0 <= k < old_views.len() implies #[trigger] old_views[k].name != name@ by {
            if old_views[k].name == name@ {
                assert(has_name(old_views, e@.name));
            }
        }
        assert forall|a: int, b: int| 0 <= a < b < nv.len() implies name_le(#[trigger] nv[a].name, #[trigger] nv[b].name)
            && nv[a].name != nv[b].name by {
            if b < j {
                assert(nv[a] == old_views[a] && nv[b] == old_views[b]);
            } else if b == j {
                assert(nv[a] == old_views[a]);
            } else if a == j {
                assert(nv[b] == old_views[b - 1]);
                assert(name_le(name@, old_views[j as int].name));
                if b - 1 > j {
                    lemma_name_le_transitive(name@, old_views[j as int].name, old_views[b - 1].name);
                }
            } else if a < j {
                assert(nv[a] == old_views[a] && nv[b] == old_views[b - 1]);
            } else {
                assert(nv[a] == old_views[a - 1] && nv[b] == old_views[b - 1]);
            }
        }
    }
}

// ---------------------------------------------------------------------------
// the listing

/// The characters of `s` up to its first `/`.
pub open spec fn leading_segment(s: Seq<char>) -> Seq<char>
    decreases s.len(),
{
    if s.len() == 0 || s[0] == '/' {
        Seq::empty()
    } else {
        seq![s[0]] + leading_segment(s.drop_first())
    }
}

proof fn lemma_leading_segment(s: Seq<char>)
    ensures
        leading_segment(s).len() <= s.len(),
        leading_segment(s) == s.subrange(0, leading_segment(s).len() as int),
        leading_segment(s).len() < s.len() ==> s[leading_segment(s).len() as int] == '/',
    decreases s.len(),
{
    if s.len() > 0 && s[0] != '/' {
        lemma_leading_segment(s.drop_first());
        assert(leading_segment(s) =~= s.subrange(0, leading_segment(s).len() as int));
    }
}

fn leading_segment_exec(s: &Vec<char>) -> (r: Vec<char>)
    ensures
        r@ == leading_segment(s@),
{
    let mut r: Vec<char> = Vec::new();
    let mut i: usize = 0;
    assert(s@.subrange(0, s@.len() as int) =~= s@);
    while i < s.len() && s[i] != '/'
        invariant
            i <= s@.len(),
            forall|k: int| 0 <= k < i ==> s@[k] != '/',
            r@ == s@.subrange(0, i as int),
            leading_segment(s@) == r@ + leading_segment(s@.subrange(i as int, s@.len() as int)),
        decreases s@.len() - i,
    {
        let ghost rest = s@.subrange(i as int, s@.len() as int);
        assert(rest.drop_first() =~= s@.subrange(i as int + 1, s@.len() as int));
        r.push(s[i]);
        i += 1;
        assert(r@ =~= s@.subrange(0, i as int));
        assert(r@ =~= s@.subrange(0, i as int - 1) + seq![rest[0]]);
    }
    assert(leading_segment(s@.subrange(i as int, s@.len() as int)) =~= Seq::<char>::empty());
    assert(leading_segment(s@) =~= r@);
    r
}

/// The entry made up for a directory that the archive holds no entry for.
pub open spec fn synthetic_dir(name: Seq<char>) -> EntryView {
    EntryView {
        perm: seq!['d', '-', '-', '-', '-', '-', '-', '-', '-', '-'],
        size: size_text(0),
        time: default_time_text(),
        name,
        link: Seq::empty(),
    }
}

/// Builds the entry of a directory that the archive holds no entry for.
pub fn dir_entry(name: &str) -> (r: Entry)
    ensures
        r@ == synthetic_dir(name@),
{
    let mut perm: Vec<char> = Vec::new();
    perm.push('d');
    let mut k: usize = 0;
    while k < 9
        invariant
            k <= 9,
            perm@ == seq!['d'] + Seq::new(k as nat, |_i: int| '-'),
        decreases 9 - k,
    {
        perm.push('-');
        k += 1;
        assert(perm@ =~= seq!['d'] + Seq::new(k as nat, |_i: int| '-'));
    }
    assert(perm@ =~= seq!['d', '-', '-', '-', '-', '-', '-', '-', '-', '-']);
    Entry {
        perm: string_of(&perm),
        size: ls_style_size(0),
        time: default_time(),
        name: string_of(&chars_of(name)),
        link: String::new(),
    }
}

pub open spec fn has_name(entries: Seq<EntryView>, name: Seq<char>) -> bool {
    exists|i: int| 0 <= i < entries.len() && #[trigger] entries[i].name == name
}

/// Where the entry named `name` is.
pub open spec fn name_index(entries: Seq<EntryView>, name: Seq<char>) -> int {
    choose|i: int| 0 <= i < entries.len() && #[trigger] entries[i].name == name
}

/// No two entries share a name.
pub open spec fn distinct_names(s: Seq<EntryView>) -> bool {
    forall|i: int, j: int| 0 <= i < j < s.len() ==> #[trigger] s[i].name != #[trigger] s[j].name
}

/// The entry named `name`, if any.
fn find_name(found: &Vec<Entry>, name: &Vec<char>) -> (r: Option<usize>)
    requires
        distinct_names(entry_views(found@)),
    ensures
        match r {
            Some(k) => k < found@.len() && found@[k as int]@.name == name@ && has_name(entry_views(found@), name@)
                && k as int == name_index(entry_views(found@), name@),
            None => !has_name(entry_views(found@), name@),
        },
{
    let ghost fv = entry_views(found@);
    let mut k: usize = 0;
    while k < found.len()
        invariant
            k <= found@.len(),
            fv == entry_views(found@),
            distinct_names(fv),
            forall|w: int| 0 <= w < k ==> #[trigger] fv[w].name != name@,
        decreases found@.len() - k,
    {
        if chars_eq(&chars_of(found[k].name.as_str()), name) {
            proof {
                assert(fv[k as int].name == name@);
                assert(distinct_names(fv));
                let c = name_index(fv, name@);
                assert(0 <= c < fv.len() && fv[c].name == name@);
                if c != k {
                    if c < k {
                    } else {
                        assert(fv[k as int].name != fv[c].name);
                    }
                }
            }
            return Some(k);
        }
        k += 1;
    }
    None
}

/// The `..` entry made from `e`: its data, named `..`.
pub open spec fn as_parent(e: EntryView) -> EntryView {
    EntryView { name: seq!['.', '.'], ..e }
}

/// The listing so far: the `..` entry and the entries found, unsorted.
pub type ListingState = (EntryView, Seq<EntryView>);

/// What one archive record adds to the listing of the directory whose
/// paths start with `prefix`: each first segment below it is listed once;
/// a record of its own gives its data (replacing a made-up entry of that
/// name), and a deeper record gives a made-up directory unless the name is
/// listed already.
pub open spec fn listing_step(
    st: ListingState,
    rec: RecordView,
    prefix: Seq<char>,
    parent: Seq<char>,
    filter: Option<Seq<char>>,
) -> ListingState {
    let path = rec.path;
    if !(prefix.len() <= path.len() && path.subrange(0, prefix.len() as int) == prefix) {
        st
    } else {
        let rest = path.subrange(prefix.len() as int, path.len() as int);
        if filter is Some && pattern_matches(filter->Some_0, rest) {
            st
        } else if path == parent {
            (record_entry(rec.perm, rec.size, rec.time, seq!['.', '.']), st.1)
        } else {
            let seg = leading_segment(rest);
            if seg.len() == 0 {
                st
            } else if seg.len() + 1 >= rest.len() {
                let e = record_entry(rec.perm, rec.size, rec.time, seg);
                if has_name(st.1, seg) {
                    (st.0, st.1.update(name_index(st.1, seg), e))
                } else {
                    (st.0, st.1.push(e))
                }
            } else if has_name(st.1, seg) {
                st
            } else {
                (st.0, st.1.push(synthetic_dir(seg)))
            }
        }
    }
}

pub open spec fn listing_fold(
    recs: Seq<RecordView>,
    init: EntryView,
    prefix: Seq<char>,
    parent: Seq<char>,
    filter: Option<Seq<char>>,
) -> ListingState
    decreases recs.len(),
{
    if recs.len() == 0 {
        (init, Seq::empty())
    } else {
        listing_step(listing_fold(recs.drop_last(), init, prefix, parent, filter), recs.last(), prefix, parent, filter)
    }
}

/// The prefix that the paths inside the virtual directory `cwd` start with:
/// empty at the archive's root, otherwise `cwd` without its first character
/// (the leading `/`) and with a `/` after it.
pub open spec fn dir_prefix(cwd: Seq<char>) -> Seq<char> {
    if cwd.len() == 0 {
        Seq::empty()
    } else {
        cwd.drop_first().push('/')
    }
}

/// The archive path of the parent of the directory with prefix `prefix`;
/// `/` when that is the archive's root.
pub open spec fn parent_of_prefix(prefix: Seq<char>) -> Seq<char> {
    let parts = parts_of(prefix, false);
    if parts.len() <= 1 {
        seq!['/']
    } else {
        plain_join(parts.drop_last())
    }
}

pub open spec fn record_views(v: Seq<ArchiveRecord>) -> Seq<RecordView> {
    v.map_values(|r: ArchiveRecord| r@)
}

/// The archive path of the parent of the directory with prefix `prefix`.
pub fn parent_path(prefix: &str) -> (r: String)
    ensures
        r@ == parent_of_prefix(prefix@),
{
    let pc = chars_of(prefix);
    let parts = crate::path::split_parts_plain(&pc);
    if parts.len() <= 1 {
        let mut v: Vec<char> = Vec::new();
        v.push('/');
        assert(v@ =~= seq!['/']);
        return string_of(&v);
    }
    let ghost pv = crate::path::views(parts@);
    let mut head = parts;
    head.pop();
    assert(crate::path::views(head@) =~= pv.drop_last());
    let joined = crate::path::join_plain_all(&head);
    string_of(&joined)
}

/// Lists the virtual directory `cwd` (`/a/b`, or empty for the archive's
/// root) of an archive whose records are `records`, in the order the
/// archive holds them. `parent` gives the data of the `..` entry (its name
/// becomes `..`) unless the archive holds a record for the parent
/// directory; `filter` is a regular expression on the part of a path below
/// `cwd` whose matches are left out.
///
/// The result is the `..` entry followed by the directory's entries in
/// strictly increasing order of name, each first segment once: a record one
/// level below `cwd` gives an entry with its own metadata (replacing a
/// made-up one of that name), and a deeper record whose first directory has
/// no entry yet gives a made-up directory entry.
pub fn virtual_listing(
    records: &Vec<ArchiveRecord>,
    cwd: &str,
    filter: &Option<String>,
    parent: Entry,
) -> (r: Vec<Entry>)
    ensures
        ({
            let prefix = dir_prefix(cwd@);
            let fl = match filter {
                Some(f) => Some(f@),
                None => None,
            };
            let st = listing_fold(record_views(records@), as_parent(parent@), prefix, parent_of_prefix(prefix), fl);
            &&& r@.len() == st.1.len() + 1
            &&& r@[0]@ == st.0
            &&& r@[0]@.name == seq!['.', '.']
            &&& names_increasing(entry_views(r@).drop_first())
            &&& entry_views(r@).drop_first().to_multiset() == st.1.to_multiset()
        }),
{
    let cc = chars_of(cwd);
    let prefix: Vec<char> = if cc.len() == 0 {
        Vec::new()
    } else {
        let mut p = suffix_from(&cc, 1);
        p.push('/');
        p
    };
    assert(prefix@ == dir_prefix(cwd@));
    let prefix_s = string_of(&prefix);
    let parent_s = parent_path(prefix_s.as_str());
    let parent_c = chars_of(parent_s.as_str());
    let ghost fl = match filter {
        Some(f) => Some(f@),
        None => None::<Seq<char>>,
    };
    let ghost recs = record_views(records@);
    let mut dots: Vec<char> = Vec::new();
    dots.push('.');
    dots.push('.');
    assert(dots@ =~= seq!['.', '.']);
    let ghost init = as_parent(parent@);
    let mut up = parent;
    up.name = string_of(&dots);
    assert(up@ == init);
    let mut found: Vec<Entry> = Vec::new();
    let mut i: usize = 0;
    while i < records.len()
        invariant
            i <= records@.len(),
            recs == record_views(records@),
            prefix@ == dir_prefix(cwd@),
            parent_c@ == parent_of_prefix(prefix@),
            dots@ == seq!['.', '.'],
            fl == match filter {
                Some(f) => Some(f@),
                None => None::<Seq<char>>,
            },
            (up@, entry_views(found@)) == listing_fold(recs.subrange(0, i as int), init, prefix@, parent_c@, fl),
            up@.name == seq!['.', '.'],
            distinct_names(entry_views(found@)),
        decreases records@.len() - i,
    {
        let ghost sub = recs.subrange(0, i as int + 1);
        assert(sub.drop_last() =~= recs.subrange(0, i as int));
        assert(sub.last() == records@[i as int]@);
        let rec = &records[i];
        let path = chars_of(rec.path.as_str());
        if has_prefix(&path, &prefix) {
            let rest = suffix_from(&path, prefix.len());
            let rest_s = string_of(&rest);
            let skip = match filter {
                Some(f) => filter_matches(f.as_str(), rest_s.as_str()),
                None => false,
            };
            if skip {
            } else if chars_eq(&path, &parent_c) {
                up = rec.entry(string_of(&dots).as_str());
            } else {
                let seg = leading_segment_exec(&rest);
                proof {
                    lemma_leading_segment(rest@);
                }
                if seg.len() == 0 {
                } else if seg.len() >= rest.len() - 1 {
                    let e = rec.entry(string_of(&seg).as_str());
                    let ghost before = entry_views(found@);
                    match find_name(&found, &seg) {
                        Some(k) => {
                            found.set(k, e);
                            assert(entry_views(found@) =~= before.update(k as int, e@));
                            assert forall|x: int, y: int| 0 <= x < y < found@.len() implies #[trigger] entry_views(found@)[x].name
                                != #[trigger] entry_views(found@)[y].name by {
                                assert(before[x].name != before[y].name);
                            }
                        },
                        None => {
                            found.push(e);
                            assert(entry_views(found@) =~= before.push(e@));
                            assert forall|x: int, y: int| 0 <= x < y < found@.len() implies #[trigger] entry_views(found@)[x].name
                                != #[trigger] entry_views(found@)[y].name by {
                                if y == before.len() {
                                    assert(before[x].name != seg@);
                                } else {
                                    assert(before[x].name != before[y].name);
                                }
                            }
                        },
                    }
                } else {
                    match find_name(&found, &seg) {
                        Some(_) => {},
                        None => {
                            let e = dir_entry(string_of(&seg).as_str());
                            let ghost before = entry_views(found@);
                            found.push(e);
                            assert(entry_views(found@) =~= before.push(e@));
                            assert forall|x: int, y: int| 0 <= x < y < found@.len() implies #[trigger] entry_views(found@)[x].name
                                != #[trigger] entry_views(found@)[y].name by {
                                if y == before.len() {
                                    assert(before[x].name != seg@);
                                } else {
                                    assert(before[x].name != before[y].name);
                                }
                            }
                        },
                    }
                }
            }
        }
        i += 1;
    }
    assert(recs.subrange(0, records@.len() as int) =~= recs);
    let ghost unsorted = entry_views(found@);
    let mut sorted: Vec<Entry> = Vec::new();
    let mut rest_entries = found;
    let ghost taken: Seq<EntryView> = Seq::empty();
    assert(unsorted =~= taken + entry_views(rest_entries@));
    while rest_entries.len() > 0
        invariant
            names_increasing(entry_views(sorted@)),
            entry_views(sorted@).to_multiset() == taken.to_multiset(),
            unsorted == taken + entry_views(rest_entries@),
            distinct_names(unsorted),
        decreases rest_entries@.len(),
    {
        let ghost rv0 = entry_views(rest_entries@);
        let e = rest_entries.remove(0);
        let ghost ev = e@;
        proof {
            assert(ev == rv0[0]);
            let sv = entry_views(sorted@);
            assert(!has_name(sv, ev.name)) by {
                if has_name(sv, ev.name) {
                    let x = choose|x: int| 0 <= x < sv.len() && #[trigger] sv[x].name == ev.name;
                    assert(sv.contains(sv[x]));
                    assert(sv.to_multiset().count(sv[x]) > 0);
                    assert(taken.contains(sv[x]));
                    let t = choose|t: int| 0 <= t < taken.len() && taken[t] == sv[x];
                    assert(unsorted[t] == taken[t]);
                    assert(unsorted[taken.len() as int] == ev);
                    assert(unsorted[t].name != unsorted[taken.len() as int].name);
                }
            }
            let rv = entry_views(rest_entries@);
            assert(taken + seq![ev] + rv =~= unsorted);
            taken = taken.push(ev);
            assert(taken + rv =~= unsorted);
        }
        insert_strict(&mut sorted, e);
    }
    assert(taken =~= unsorted);
    let ghost upv = up@;
    let mut out: Vec<Entry> = Vec::new();
    out.push(up);
    let ghost head = entry_views(out@);
    assert(head.len() == 1 && head[0] == upv);
    let ghost sv = entry_views(sorted@);
    let n = sorted.len();
    let mut srt = sorted;
    while srt.len() > 0
        invariant
            n == sv.len(),
            entry_views(out@).len() == 1 + sv.len() - srt@.len(),
            entry_views(out@)[0] == head[0],
            entry_views(out@).drop_first() + entry_views(srt@) == sv,
        decreases srt@.len(),
    {
        let e = srt.remove(0);
        let ghost before = entry_views(out@);
        out.push(e);
        assert(entry_views(out@) =~= before.push(e@));
        assert(entry_views(out@).drop_first() =~= before.drop_first().push(e@));
        assert(entry_views(out@)[0] == before[0]);
    }
    assert(entry_views(out@).drop_first() =~= sv);
    assert(out@[0]@ == entry_views(out@)[0]);
    proof {
        vstd::seq_lib::to_multiset_len(sv);
        vstd::seq_lib::to_multiset_len(unsorted);
    }
    out
}

/// An archive record for a directory: its path ends with `/`.
pub open spec fn is_dir_record(r: RecordView) -> bool {
    r.path.len() > 0 && r.path.last() == '/'
}

pub open spec fn not_dir_record() -> spec_fn(RecordView) -> bool {
    |r: RecordView| !is_dir_record(r)
}

/// A directory record of `recs` that lies in the directory with prefix
/// `prefix`, one level or more below it, under the name `name`.
pub open spec fn dir_record_named(recs: Seq<RecordView>, prefix: Seq<char>, name: Seq<char>) -> bool {
    exists|i: int|
        0 <= i < recs.len() && is_dir_record(#[trigger] recs[i]) && prefix.len() <= recs[i].path.len()
            && recs[i].path.subrange(0, prefix.len() as int) == prefix && leading_segment(
            recs[i].path.subrange(prefix.len() as int, recs[i].path.len() as int),
        ) == name
}

/// A record that a listing of the directory with prefix `prefix` shows
/// under the name `n` (a file, or what leads to a deeper entry): it lies
/// below the prefix, the filter keeps it, it is not the parent directory,
/// and `n` is its first segment below the prefix.
pub open spec fn shows_name(
    r: RecordView,
    prefix: Seq<char>,
    parent: Seq<char>,
    filter: Option<Seq<char>>,
    n: Seq<char>,
) -> bool {
    &&& prefix.len() <= r.path.len()
    &&& r.path.subrange(0, prefix.len() as int) == prefix
    &&& !(filter is Some && pattern_matches(filter->Some_0, r.path.subrange(prefix.len() as int, r.path.len() as int)))
    &&& r.path != parent
    &&& n.len() > 0
    &&& leading_segment(r.path.subrange(prefix.len() as int, r.path.len() as int)) == n
}

/// One step of a listing keeps every name it had, and adds at most the name
/// under which it shows its record.
proof fn lemma_step_names(st: ListingState, rec: RecordView, prefix: Seq<char>, parent: Seq<char>, filter: Option<Seq<char>>)
    ensures
        forall|n: Seq<char>| has_name(st.1, n) ==> #[trigger] has_name(listing_step(st, rec, prefix, parent, filter).1, n),
        forall|n: Seq<char>|
            #[trigger] has_name(listing_step(st, rec, prefix, parent, filter).1, n) ==> has_name(st.1, n) || shows_name(
                rec,
                prefix,
                parent,
                filter,
                n,
            ),
        forall|n: Seq<char>| shows_name(rec, prefix, parent, filter, n) ==> #[trigger] has_name(listing_step(st, rec, prefix, parent, filter).1, n),
        listing_step(st, rec, prefix, parent, filter).1.len() >= st.1.len(),
{
    let s2 = listing_step(st, rec, prefix, parent, filter).1;
    let path = rec.path;
    if prefix.len() <= path.len() && path.subrange(0, prefix.len() as int) == prefix {
        let rest = path.subrange(prefix.len() as int, path.len() as int);
        let seg = leading_segment(rest);
        lemma_leading_segment(rest);
        assert forall|n: Seq<char>| has_name(st.1, n) implies #[trigger] has_name(s2, n) by {
            let i = choose|i: int| 0 <= i < st.1.len() && #[trigger] st.1[i].name == n;
            if s2.len() > i && s2[i].name == n {
            } else {
                assert(s2 == st.1.update(name_index(st.1, seg), record_entry(rec.perm, rec.size, rec.time, seg)) || s2 == st.1
                    || s2 == st.1.push(s2.last()));
                assert(s2[i].name == n);
            }
        }
        assert forall|n: Seq<char>| #[trigger] has_name(s2, n) implies has_name(st.1, n) || shows_name(rec, prefix, parent, filter, n) by {
            let i = choose|i: int| 0 <= i < s2.len() && #[trigger] s2[i].name == n;
            if i < st.1.len() && st.1[i].name == n {
            } else if s2 != st.1 {
                if has_name(st.1, seg) {
                    let k = name_index(st.1, seg);
                    if i != k {
                        assert(s2[i] == st.1[i]);
                    }
                } else {
                    assert(i == st.1.len());
                }
            }
        }
        assert forall|n: Seq<char>| shows_name(rec, prefix, parent, filter, n) implies #[trigger] has_name(s2, n) by {
            assert(seg == n);
            if seg.len() + 1 >= rest.len() {
                if has_name(st.1, seg) {
                    let k = name_index(st.1, seg);
                    assert(s2[k].name == n);
                } else {
                    assert(s2[st.1.len() as int].name == n);
                }
            } else if has_name(st.1, seg) {
                let k = choose|k: int| 0 <= k < st.1.len() && #[trigger] st.1[k].name == seg;
                assert(s2[k].name == n);
            } else {
                assert(s2[st.1.len() as int].name == n);
            }
        }
    }
}

/// Listing an archive without its directory records (as archives made
/// without directory entries are) against listing it with them: every name
/// of the former is a name of the latter; every name of the latter is a
/// name of the former, or that of a directory record the former lacks.
pub proof fn lemma_listing_without_dir_records(
    recs: Seq<RecordView>,
    init: EntryView,
    prefix: Seq<char>,
    parent: Seq<char>,
    filter: Option<Seq<char>>,
)
    ensures
        ({
            let a = listing_fold(recs, init, prefix, parent, filter).1;
            let b = listing_fold(recs.filter(not_dir_record()), init, prefix, parent, filter).1;
            &&& forall|n: Seq<char>| #[trigger] has_name(b, n) ==> has_name(a, n)
            &&& forall|n: Seq<char>| #[trigger] has_name(a, n) ==> has_name(b, n) || dir_record_named(recs, prefix, n)
        }),
    decreases recs.len(),
{
    reveal(Seq::filter);
    let f = not_dir_record();
    let a = listing_fold(recs, init, prefix, parent, filter).1;
    let b = listing_fold(recs.filter(f), init, prefix, parent, filter).1;
    if recs.len() == 0 {
        assert(recs.filter(f).len() == 0);
        return;
    }
    let t = recs.drop_last();
    let r = recs.last();
    lemma_listing_without_dir_records(t, init, prefix, parent, filter);
    let sa = listing_fold(t, init, prefix, parent, filter);
    let tb = t.filter(f);
    let sb = listing_fold(tb, init, prefix, parent, filter);
    assert(a == listing_step(sa, r, prefix, parent, filter).1);
    lemma_step_names(sa, r, prefix, parent, filter);
    assert forall|n: Seq<char>| dir_record_named(t, prefix, n) implies dir_record_named(recs, prefix, n) by {
        let i = choose|i: int|
            0 <= i < t.len() && is_dir_record(#[trigger] t[i]) && prefix.len() <= t[i].path.len()
                && t[i].path.subrange(0, prefix.len() as int) == prefix && leading_segment(
                t[i].path.subrange(prefix.len() as int, t[i].path.len() as int),
            ) == n;
        assert(recs[i] == t[i]);
    }
    if !f(r) {
        assert(recs.filter(f) == tb);
        assert forall|n: Seq<char>| #[trigger] has_name(a, n) implies has_name(b, n) || dir_record_named(recs, prefix, n) by {
            if has_name(sa.1, n) {
            } else {
                assert(shows_name(r, prefix, parent, filter, n));
                assert(recs[recs.len() - 1] == r);
                assert(dir_record_named(recs, prefix, n));
            }
        }
    } else {
        assert(recs.filter(f) == tb.push(r));
        assert(tb.push(r).drop_last() == tb);
        assert(b == listing_step(sb, r, prefix, parent, filter).1);
        lemma_step_names(sb, r, prefix, parent, filter);
        assert forall|n: Seq<char>| #[trigger] has_name(b, n) implies has_name(a, n) by {
            if has_name(sb.1, n) {
            } else {
                assert(shows_name(r, prefix, parent, filter, n));
            }
        }
        assert forall|n: Seq<char>| #[trigger] has_name(a, n) implies has_name(b, n) || dir_record_named(recs, prefix, n) by {
            if has_name(sa.1, n) {
            } else {
                assert(shows_name(r, prefix, parent, filter, n));
            }
        }
    }
}

/// Every record that a listing shows gives the listing its name.
proof fn lemma_file_names_listed(
    recs: Seq<RecordView>,
    init: EntryView,
    prefix: Seq<char>,
    parent: Seq<char>,
    filter: Option<Seq<char>>,
    i: int,
    n: Seq<char>,
)
    requires
        0 <= i < recs.len(),
        shows_name(recs[i], prefix, parent, filter, n),
    ensures
        has_name(listing_fold(recs, init, prefix, parent, filter).1, n),
    decreases recs.len(),
{
    let t = recs.drop_last();
    let st = listing_fold(t, init, prefix, parent, filter);
    lemma_step_names(st, recs.last(), prefix, parent, filter);
    if i < recs.len() - 1 {
        assert(t[i] == recs[i]);
        lemma_file_names_listed(t, init, prefix, parent, filter, i, n);
    }
}

/// When every directory record that a listing would name has a file record
/// below it that the listing shows, the listings with and without the
/// directory records show the same names.
pub proof fn lemma_listing_same_names(
    recs: Seq<RecordView>,
    init: EntryView,
    prefix: Seq<char>,
    parent: Seq<char>,
    filter: Option<Seq<char>>,
)
    requires
        forall|n: Seq<char>|
            n.len() > 0 && #[trigger] dir_record_named(recs, prefix, n) ==> exists|j: int|
                0 <= j < recs.len() && !is_dir_record(#[trigger] recs[j]) && shows_name(recs[j], prefix, parent, filter, n),
    ensures
        forall|n: Seq<char>|
            #[trigger] has_name(listing_fold(recs, init, prefix, parent, filter).1, n) == has_name(
                listing_fold(recs.filter(not_dir_record()), init, prefix, parent, filter).1,
                n,
            ),
{
    reveal(Seq::filter);
    let a = listing_fold(recs, init, prefix, parent, filter).1;
    let bs = recs.filter(not_dir_record());
    let b = listing_fold(bs, init, prefix, parent, filter).1;
    lemma_listing_without_dir_records(recs, init, prefix, parent, filter);
    lemma_listing_names_nonempty(recs, init, prefix, parent, filter);
    assert forall|n: Seq<char>| #[trigger] has_name(a, n) == has_name(b, n) by {
        if has_name(a, n) && !has_name(b, n) {
            assert(dir_record_named(recs, prefix, n));
            let i = choose|i: int| 0 <= i < a.len() && #[trigger] a[i].name == n;
            assert(n.len() > 0);
            let j = choose|j: int|
                0 <= j < recs.len() && !is_dir_record(#[trigger] recs[j]) && shows_name(recs[j], prefix, parent, filter, n);
            lemma_in_filter(recs, not_dir_record(), j);
            let k = choose|k: int| 0 <= k < bs.len() && bs[k] == recs[j];
            lemma_file_names_listed(bs, init, prefix, parent, filter, k, n);
        }
    }
}

/// Two listings in strictly increasing order of names that show the same
/// names show them in the same places.
pub proof fn lemma_increasing_same_names(x: Seq<EntryView>, y: Seq<EntryView>)
    requires
        names_increasing(x),
        names_increasing(y),
        forall|n: Seq<char>| #[trigger] has_name(x, n) == has_name(y, n),
    ensures
        x.len() == y.len(),
        forall|i: int| 0 <= i < x.len() ==> #[trigger] x[i].name == y[i].name,
    decreases x.len(),
{
    if x.len() == 0 {
        if y.len() > 0 {
            assert(has_name(y, y[0].name));
            assert(has_name(x, y[0].name));
        }
        return;
    }
    if y.len() == 0 {
        assert(has_name(x, x[0].name));
        assert(has_name(y, x[0].name));
        return;
    }
    assert(has_name(x, x[0].name));
    assert(has_name(y, x[0].name));
    assert(has_name(y, y[0].name));
    assert(has_name(x, y[0].name));
    let k = choose|k: int| 0 <= k < y.len() && #[trigger] y[k].name == x[0].name;
    let m = choose|m: int| 0 <= m < x.len() && #[trigger] x[m].name == y[0].name;
    if k > 0 && m > 0 {
        assert(name_le(y[0].name, y[k].name));
        assert(name_le(x[0].name, x[m].name));
        lemma_name_le_antisymmetric(x[0].name, y[0].name);
        assert(x[m].name == x[0].name);
        assert(false);
    }
    assert(x[0].name == y[0].name);
    let x2 = x.drop_first();
    let y2 = y.drop_first();
    assert forall|n: Seq<char>| #[trigger] has_name(x2, n) == has_name(y2, n) by {
        if has_name(x2, n) {
            let i = choose|i: int| 0 <= i < x2.len() && #[trigger] x2[i].name == n;
            assert(x[i + 1].name == n);
            assert(x[0].name != x[i + 1].name);
            assert(has_name(x, n));
            assert(has_name(y, n));
            let j = choose|j: int| 0 <= j < y.len() && #[trigger] y[j].name == n;
            assert(j != 0);
            assert(y2[j - 1].name == n);
        }
        if has_name(y2, n) {
            let i = choose|i: int| 0 <= i < y2.len() && #[trigger] y2[i].name == n;
            assert(y[i + 1].name == n);
            assert(y[0].name != y[i + 1].name);
            assert(has_name(y, n));
            assert(has_name(x, n));
            let j = choose|j: int| 0 <= j < x.len() && #[trigger] x[j].name == n;
            assert(j != 0);
            assert(x2[j - 1].name == n);
        }
    }
    assert(names_increasing(x2)) by {
        assert forall|i: int, j: int| 0 <= i < j < x2.len() implies name_le(#[trigger] x2[i].name, #[trigger] x2[j].name)
            && x2[i].name != x2[j].name by {
            assert(x2[i] == x[i + 1] && x2[j] == x[j + 1]);
        }
    }
    assert(names_increasing(y2)) by {
        assert forall|i: int, j: int| 0 <= i < j < y2.len() implies name_le(#[trigger] y2[i].name, #[trigger] y2[j].name)
            && y2[i].name != y2[j].name by {
            assert(y2[i] == y[i + 1] && y2[j] == y[j + 1]);
        }
    }
    lemma_increasing_same_names(x2, y2);
    assert forall|i: int| 0 <= i < x.len() implies #[trigger] x[i].name == y[i].name by {
        if i > 0 {
            assert(x2[i - 1].name == y2[i - 1].name);
        }
    }
}

/// Sequences with the same elements show the same names.
proof fn lemma_same_elements_same_names(s1: Seq<EntryView>, s2: Seq<EntryView>)
    requires
        s1.to_multiset() == s2.to_multiset(),
    ensures
        forall|n: Seq<char>| #[trigger] has_name(s1, n) == has_name(s2, n),
{
    assert forall|n: Seq<char>| #[trigger] has_name(s1, n) == has_name(s2, n) by {
        if has_name(s1, n) {
            let i = choose|i: int| 0 <= i < s1.len() && #[trigger] s1[i].name == n;
            assert(s1.contains(s1[i]));
            assert(s2.to_multiset().count(s1[i]) > 0);
            assert(s2.contains(s1[i]));
            let j = choose|j: int| 0 <= j < s2.len() && s2[j] == s1[i];
            assert(s2[j].name == n);
        }
        if has_name(s2, n) {
            let i = choose|i: int| 0 <= i < s2.len() && #[trigger] s2[i].name == n;
            assert(s2.contains(s2[i]));
            assert(s1.to_multiset().count(s2[i]) > 0);
            assert(s1.contains(s2[i]));
            let j = choose|j: int| 0 <= j < s1.len() && s1[j] == s2[i];
            assert(s1[j].name == n);
        }
    }
}

/// The listings of an archive with its directory records and without them
/// (`ra` and `rb`, as `virtual_listing` gives them) have the same length
/// and the same name in every place, when every directory record that
/// would be listed has a file below it that the listing shows.
pub proof fn lemma_listings_match(
    ra: Seq<EntryView>,
    rb: Seq<EntryView>,
    recs: Seq<RecordView>,
    init: EntryView,
    prefix: Seq<char>,
    parent: Seq<char>,
    filter: Option<Seq<char>>,
)
    requires
        forall|n: Seq<char>|
            n.len() > 0 && #[trigger] dir_record_named(recs, prefix, n) ==> exists|j: int|
                0 <= j < recs.len() && !is_dir_record(#[trigger] recs[j]) && shows_name(recs[j], prefix, parent, filter, n),
        ra.len() >= 1,
        rb.len() >= 1,
        names_increasing(ra.drop_first()),
        names_increasing(rb.drop_first()),
        ra.drop_first().to_multiset() == listing_fold(recs, init, prefix, parent, filter).1.to_multiset(),
        rb.drop_first().to_multiset() == listing_fold(recs.filter(not_dir_record()), init, prefix, parent, filter).1.to_multiset(),
    ensures
        ra.len() == rb.len(),
        forall|i: int| 1 <= i < ra.len() ==> #[trigger] ra[i].name == rb[i].name,
{
    lemma_listing_same_names(recs, init, prefix, parent, filter);
    let a = listing_fold(recs, init, prefix, parent, filter).1;
    let b = listing_fold(recs.filter(not_dir_record()), init, prefix, parent, filter).1;
    lemma_same_elements_same_names(ra.drop_first(), a);
    lemma_same_elements_same_names(rb.drop_first(), b);
    assert forall|n: Seq<char>| #[trigger] has_name(ra.drop_first(), n) == has_name(rb.drop_first(), n) by {
        assert(has_name(ra.drop_first(), n) == has_name(a, n));
        assert(has_name(rb.drop_first(), n) == has_name(b, n));
        assert(has_name(a, n) == has_name(b, n));
    }
    lemma_increasing_same_names(ra.drop_first(), rb.drop_first());
    assert forall|i: int| 1 <= i < ra.len() implies #[trigger] ra[i].name == rb[i].name by {
        assert(ra.drop_first()[i - 1].name == rb.drop_first()[i - 1].name);
    }
}

/// A record that the filter keeps is in the filtered sequence.
proof fn lemma_in_filter(s: Seq<RecordView>, f: spec_fn(RecordView) -> bool, j: int)
    requires
        0 <= j < s.len(),
        f(s[j]),
    ensures
        exists|k: int| 0 <= k < s.filter(f).len() && s.filter(f)[k] == s[j],
    decreases s.len(),
{
    reveal(Seq::filter);
    let t = s.drop_last();
    if j == s.len() - 1 {
        assert(s.filter(f) == t.filter(f).push(s.last()));
        assert(s.filter(f)[t.filter(f).len() as int] == s[j]);
    } else {
        assert(t[j] == s[j]);
        lemma_in_filter(t, f, j);
        let k = choose|k: int| 0 <= k < t.filter(f).len() && t.filter(f)[k] == t[j];
        if f(s.last()) {
            assert(s.filter(f) == t.filter(f).push(s.last()));
            assert(s.filter(f)[k] == t.filter(f)[k]);
        } else {
            assert(s.filter(f) == t.filter(f));
        }
    }
}

/// The names a listing shows are never empty.
proof fn lemma_listing_names_nonempty(
    recs: Seq<RecordView>,
    init: EntryView,
    prefix: Seq<char>,
    parent: Seq<char>,
    filter: Option<Seq<char>>,
)
    ensures
        forall|n: Seq<char>| #[trigger] has_name(listing_fold(recs, init, prefix, parent, filter).1, n) ==> n.len() > 0,
    decreases recs.len(),
{
    if recs.len() > 0 {
        let t = recs.drop_last();
        lemma_listing_names_nonempty(t, init, prefix, parent, filter);
        let st = listing_fold(t, init, prefix, parent, filter);
        lemma_step_names(st, recs.last(), prefix, parent, filter);
    }
}

} // verus!
