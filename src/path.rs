//! Slash-separated paths: normalisation, joining onto a working directory,
//! making relative, and quoting for a shell.

use vstd::prelude::*;

use crate::text::{chars_eq, chars_of, string_of, suffix_from};

verus! {

/// A part of a path: the text between two slashes.
pub type Part = Seq<char>;

pub open spec fn is_dot(p: Part) -> bool {
    p == seq!['.']
}

pub open spec fn is_dot_dot(p: Part) -> bool {
    p == seq!['.', '.']
}

/// Adds one part to a stack of parts. Empty parts and `.` are skipped; with
/// `resolve`, `..` drops the last part (never below the root).
pub open spec fn keep_part(stack: Seq<Part>, part: Part, resolve: bool) -> Seq<Part> {
    if part.len() == 0 || is_dot(part) {
        stack
    } else if resolve && is_dot_dot(part) {
        if stack.len() > 0 {
            stack.drop_last()
        } else {
            stack
        }
    } else {
        stack.push(part)
    }
}

/// The state of a left-to-right scan: the parts kept so far and the part
/// being read.
pub type ScanState = (Seq<Part>, Part);

pub open spec fn scan_step(st: ScanState, c: char, resolve: bool) -> ScanState {
    if c == '/' {
        (keep_part(st.0, st.1, resolve), Seq::empty())
    } else {
        (st.0, st.1.push(c))
    }
}

pub open spec fn scan(s: Seq<char>, st: ScanState, resolve: bool) -> ScanState
    decreases s.len(),
{
    if s.len() == 0 {
        st
    } else {
        scan_step(scan(s.drop_last(), st, resolve), s.last(), resolve)
    }
}

/// The parts of `s`, with empty parts and `.` dropped, and with `..`
/// resolved when `resolve` holds.
pub open spec fn parts_of(s: Seq<char>, resolve: bool) -> Seq<Part> {
    let st = scan(s, (Seq::empty(), Seq::empty()), resolve);
    keep_part(st.0, st.1, resolve)
}

/// `/first/.../last`; empty for no parts.
pub open spec fn slash_join(parts: Seq<Part>) -> Seq<char>
    decreases parts.len(),
{
    if parts.len() == 0 {
        Seq::empty()
    } else {
        slash_join(parts.drop_last()) + seq!['/'] + parts.last()
    }
}

/// `first/.../last`; empty for no parts.
pub open spec fn plain_join(parts: Seq<Part>) -> Seq<char> {
    if parts.len() == 0 {
        Seq::empty()
    } else {
        slash_join(parts).drop_first()
    }
}

/// The absolute path made of `parts`; `/` for none.
pub open spec fn absolute_of(parts: Seq<Part>) -> Seq<char> {
    if parts.len() == 0 {
        seq!['/']
    } else {
        slash_join(parts)
    }
}

/// `path` with `.` collapsed and `..` resolved, never above the root.
pub open spec fn normalized(path: Seq<char>) -> Seq<char> {
    absolute_of(parts_of(path, true))
}

pub open spec fn is_absolute(path: Seq<char>) -> bool {
    path.len() > 0 && path[0] == '/'
}

/// What the path `cwd/path` becomes when its empty and `.` parts are dropped
/// and `..` is kept.
pub open spec fn cleaned_join(path: Seq<char>, cwd: Seq<char>) -> Seq<char> {
    absolute_of(parts_of(cwd + seq!['/'] + path, false))
}

/// A part that a normalised path can hold.
pub open spec fn is_plain_part(p: Part) -> bool {
    &&& p.len() > 0
    &&& !is_dot(p)
    &&& !is_dot_dot(p)
    &&& forall|i: int| 0 <= i < p.len() ==> p[i] != '/'
}

pub open spec fn all_plain(parts: Seq<Part>) -> bool {
    forall|i: int| 0 <= i < parts.len() ==> is_plain_part(#[trigger] parts[i])
}

/// What a tilde expansion of `path` may give: a path that does not start
/// with `~/` (or is not `~`) stays as it is; one that does becomes some home
/// directory followed by the rest, or stays as it is when there is no home.
pub open spec fn tilde_outcome(path: Seq<char>, r: Seq<char>) -> bool {
    if path.len() > 0 && path[0] == '~' && (path.len() == 1 || path[1] == '/') {
        r == path || exists|home: Seq<char>| r == home + path.subrange(1, path.len() as int)
    } else {
        r == path
    }
}

/// Relies on `shellexpand::tilde`: a leading `~` that stands alone or before
/// a `/` becomes the home directory when one is known; any other input comes
/// back unchanged.
#[verifier::external_body]
fn expand_tilde(path: &str) -> (r: String)
    ensures
        tilde_outcome(path@, r@),
{
    shellexpand::tilde(path).to_string()
}

pub open spec fn hex_digit(n: u32) -> char {
    if n == 0 { '0' }
    else if n == 1 { '1' }
    else if n == 2 { '2' }
    else if n == 3 { '3' }
    else if n == 4 { '4' }
    else if n == 5 { '5' }
    else if n == 6 { '6' }
    else if n == 7 { '7' }
    else if n == 8 { '8' }
    else if n == 9 { '9' }
    else if n == 10 { 'a' }
    else if n == 11 { 'b' }
    else if n == 12 { 'c' }
    else if n == 13 { 'd' }
    else if n == 14 { 'e' }
    else { 'f' }
}

/// How one character is written inside a JSON string literal: the quote
/// and the backslash escaped, the usual short escapes for backspace, tab,
/// line feed, form feed and carriage return, other control characters as
/// `\u00XX`, everything else as it is.
pub open spec fn json_escape(c: char) -> Seq<char> {
    if c == '"' {
        seq!['\\', '"']
    } else if c == '\\' {
        seq!['\\', '\\']
    } else if c == '\u{8}' {
        seq!['\\', 'b']
    } else if c == '\t' {
        seq!['\\', 't']
    } else if c == '\n' {
        seq!['\\', 'n']
    } else if c == '\u{c}' {
        seq!['\\', 'f']
    } else if c == '\r' {
        seq!['\\', 'r']
    } else if (c as u32) < 0x20 {
        seq!['\\', 'u', '0', '0', hex_digit((c as u32) / 16), hex_digit((c as u32) % 16)]
    } else {
        seq![c]
    }
}

pub open spec fn json_escaped(s: Seq<char>) -> Seq<char>
    decreases s.len(),
{
    if s.len() == 0 {
        Seq::empty()
    } else {
        json_escaped(s.drop_last()) + json_escape(s.last())
    }
}

/// The JSON string literal for `s`, as `serde_json::to_string` writes it.
pub open spec fn json_quoted(s: Seq<char>) -> Seq<char> {
    seq!['"'] + json_escaped(s) + seq!['"']
}

/// Relies on `serde_json::to_string` on a string: the JSON string literal
/// for it, quoted and escaped as `json_escape` says (its `format_escaped_str`
/// and `ESCAPE` table).
#[verifier::external_body]
fn json_quote(s: &str) -> (r: String)
    ensures
        r@ == json_quoted(s@),
{
    serde_json::to_string(s).unwrap_or_default()
}

// ---------------------------------------------------------------------------
// lemmas

proof fn lemma_scan_append(a: Seq<char>, b: Seq<char>, st: ScanState, resolve: bool)
    ensures
        scan(a + b, st, resolve) == scan(b, scan(a, st, resolve), resolve),
    decreases b.len(),
{
    if b.len() == 0 {
        assert(a + b =~= a);
    } else {
        lemma_scan_append(a, b.drop_last(), st, resolve);
        assert((a + b).drop_last() =~= a + b.drop_last());
        assert((a + b).last() == b.last());
    }
}

proof fn lemma_scan_no_slash(w: Seq<char>, st: ScanState, resolve: bool)
    requires
        forall|i: int| 0 <= i < w.len() ==> w[i] != '/',
    ensures
        scan(w, st, resolve) == (st.0, st.1 + w),
    decreases w.len(),
{
    if w.len() == 0 {
        assert(st.1 + w =~= st.1);
    } else {
        lemma_scan_no_slash(w.drop_last(), st, resolve);
        assert(st.1 + w.drop_last() + seq![w.last()] =~= st.1 + w);
        assert((st.1 + w.drop_last()).push(w.last()) =~= st.1 + w);
    }
}

proof fn lemma_scan_one(c: char, st: ScanState, resolve: bool)
    ensures
        scan(seq![c], st, resolve) == scan_step(st, c, resolve),
{
    assert(seq![c].drop_last() =~= Seq::<char>::empty());
    assert(seq![c].last() == c);
    assert(scan(Seq::<char>::empty(), st, resolve) == st);
}

proof fn lemma_keep_plain(stack: Seq<Part>, p: Part, resolve: bool)
    requires
        is_plain_part(p),
    ensures
        keep_part(stack, p, resolve) == stack.push(p),
{
}

proof fn lemma_keep_part_plain(stack: Seq<Part>, p: Part, resolve: bool)
    requires
        all_plain(stack),
        resolve,
        forall|i: int| 0 <= i < p.len() ==> p[i] != '/',
    ensures
        all_plain(keep_part(stack, p, resolve)),
{
    let r = keep_part(stack, p, resolve);
    if p.len() == 0 || is_dot(p) {
    } else if is_dot_dot(p) {
        if stack.len() > 0 {
            assert forall|i: int| 0 <= i < r.len() implies is_plain_part(#[trigger] r[i]) by {
                assert(r[i] == stack[i]);
            }
        }
    } else {
        assert forall|i: int| 0 <= i < r.len() implies is_plain_part(#[trigger] r[i]) by {
            if i < stack.len() {
                assert(r[i] == stack[i]);
            }
        }
    }
}

/// Every state of a resolving scan holds plain parts, and a current part
/// without slashes.
proof fn lemma_scan_plain(s: Seq<char>)
    ensures
        all_plain(scan(s, (Seq::empty(), Seq::empty()), true).0),
        forall|i: int|
            0 <= i < scan(s, (Seq::empty(), Seq::empty()), true).1.len() ==> scan(
                s,
                (Seq::empty(), Seq::empty()),
                true,
            ).1[i] != '/',
    decreases s.len(),
{
    if s.len() > 0 {
        lemma_scan_plain(s.drop_last());
        let st = scan(s.drop_last(), (Seq::empty(), Seq::empty()), true);
        if s.last() == '/' {
            lemma_keep_part_plain(st.0, st.1, true);
        } else {
            let c = st.1.push(s.last());
            assert forall|i: int| 0 <= i < c.len() implies c[i] != '/' by {
                if i < st.1.len() {
                    assert(c[i] == st.1[i]);
                }
            }
        }
    }
}

/// The parts of a resolved path are plain.
pub proof fn lemma_parts_plain(s: Seq<char>)
    ensures
        all_plain(parts_of(s, true)),
{
    lemma_scan_plain(s);
    let st = scan(s, (Seq::empty(), Seq::empty()), true);
    lemma_keep_part_plain(st.0, st.1, true);
}

/// Scanning `/first/.../last` ends with all parts but the last kept and the
/// last one being read.
proof fn lemma_scan_slash_join(parts: Seq<Part>, resolve: bool)
    requires
        all_plain(parts),
        parts.len() > 0,
    ensures
        scan(slash_join(parts), (Seq::empty(), Seq::empty()), resolve) == (
            parts.drop_last(),
            parts.last(),
        ),
    decreases parts.len(),
{
    let init: ScanState = (Seq::empty(), Seq::empty());
    let prev = parts.drop_last();
    let last = parts.last();
    assert(is_plain_part(parts[parts.len() - 1]));
    let head = slash_join(prev) + seq!['/'];
    assert(slash_join(parts) == head + last);
    lemma_scan_append(head, last, init, resolve);
    lemma_scan_append(slash_join(prev), seq!['/'], init, resolve);
    assert(seq!['/'].drop_last() =~= Seq::<char>::empty());
    if prev.len() == 0 {
        assert(slash_join(prev) == Seq::<char>::empty());
        lemma_scan_one('/', init, resolve);
        assert(scan(head, init, resolve) == init) by {
            assert(head =~= seq!['/']);
        }
    } else {
        assert forall|i: int| 0 <= i < prev.len() implies is_plain_part(#[trigger] prev[i]) by {
            assert(prev[i] == parts[i]);
        }
        lemma_scan_slash_join(prev, resolve);
        assert(is_plain_part(parts[prev.len() - 1]));
        assert(prev.last() == parts[prev.len() - 1]);
        lemma_keep_plain(prev.drop_last(), prev.last(), resolve);
        assert(prev.drop_last().push(prev.last()) =~= prev);
        let st1 = scan(slash_join(prev), init, resolve);
        lemma_scan_one('/', st1, resolve);
    }
    let st2 = scan(head, init, resolve);
    assert(st2 == (prev, Seq::<char>::empty()));
    lemma_scan_no_slash(last, st2, resolve);
    assert(Seq::<char>::empty() + last =~= last);
}

/// The parts of `absolute_of(parts)` are `parts` again, when they are plain.
pub proof fn lemma_parts_of_absolute(parts: Seq<Part>, resolve: bool)
    requires
        all_plain(parts),
    ensures
        parts_of(absolute_of(parts), resolve) == parts,
{
    let init: ScanState = (Seq::empty(), Seq::empty());
    if parts.len() == 0 {
        lemma_scan_one('/', init, resolve);
    } else {
        lemma_scan_slash_join(parts, resolve);
        assert(is_plain_part(parts[parts.len() - 1]));
        lemma_keep_plain(parts.drop_last(), parts.last(), resolve);
        assert(parts.drop_last().push(parts.last()) =~= parts);
    }
}

proof fn lemma_slash_join_starts(parts: Seq<Part>)
    requires
        parts.len() > 0,
    ensures
        slash_join(parts).len() > 0,
        slash_join(parts)[0] == '/',
    decreases parts.len(),
{
    let prev = parts.drop_last();
    assert(slash_join(parts) == slash_join(prev) + seq!['/'] + parts.last());
    if prev.len() > 0 {
        lemma_slash_join_starts(prev);
        assert(slash_join(parts)[0] == slash_join(prev)[0]);
    } else {
        assert(slash_join(prev) == Seq::<char>::empty());
        assert(slash_join(parts)[0] == (seq!['/'] + parts.last())[0]);
    }
}

/// An absolute path made of parts starts with `/`.
pub proof fn lemma_absolute_of_starts(parts: Seq<Part>)
    ensures
        is_absolute(absolute_of(parts)),
{
    if parts.len() > 0 {
        lemma_slash_join_starts(parts);
    }
}

/// A normalised path is `/`, or it does not end with `/`; and its parts
/// are neither empty, nor `.`, nor `..`.
pub proof fn lemma_normalized_shape(path: Seq<char>)
    ensures
        normalized(path) == seq!['/'] || normalized(path).last() != '/',
        all_plain(parts_of(path, true)),
{
    let parts = parts_of(path, true);
    lemma_parts_plain(path);
    if parts.len() > 0 {
        let last = parts.last();
        assert(is_plain_part(parts[parts.len() - 1]));
        assert(slash_join(parts) == slash_join(parts.drop_last()) + seq!['/'] + last);
        assert(normalized(path).last() == last.last());
        assert(last[last.len() - 1] != '/');
    }
}

/// Normalising is idempotent, and its result is never shorter than `/`: it
/// always starts with `/`.
pub proof fn lemma_normalize_idempotent(path: Seq<char>)
    ensures
        normalized(normalized(path)) == normalized(path),
        normalized(path).len() >= 1,
        is_absolute(normalized(path)),
{
    lemma_parts_plain(path);
    lemma_parts_of_absolute(parts_of(path, true), true);
    lemma_absolute_of_starts(parts_of(path, true));
}

// ---------------------------------------------------------------------------
// executable code

fn is_dot_exec(p: &Vec<char>) -> (r: bool)
    ensures
        r == is_dot(p@),
{
    let r = p.len() == 1 && p[0] == '.';
    assert(r ==> p@ =~= seq!['.']);
    r
}

fn is_dot_dot_exec(p: &Vec<char>) -> (r: bool)
    ensures
        r == is_dot_dot(p@),
{
    let r = p.len() == 2 && p[0] == '.' && p[1] == '.';
    assert(r ==> p@ =~= seq!['.', '.']);
    r
}

pub open spec fn views(v: Seq<Vec<char>>) -> Seq<Part> {
    v.map_values(|x: Vec<char>| x@)
}

fn keep_part_exec(stack: &mut Vec<Vec<char>>, part: Vec<char>, resolve: bool)
    ensures
        views(final(stack)@) == keep_part(views(old(stack)@), part@, resolve),
{
    let ghost before = views(stack@);
    if part.len() == 0 || is_dot_exec(&part) {
    } else if resolve && is_dot_dot_exec(&part) {
        if stack.len() > 0 {
            stack.pop();
            assert(views(stack@) =~= before.drop_last());
        }
    } else {
        stack.push(part);
        assert(views(stack@) =~= before.push(part@));
    }
}

/// Splits `path` into its parts, as `parts_of` says.
fn split_parts(path: &Vec<char>, resolve: bool) -> (r: Vec<Vec<char>>)
    ensures
        views(r@) == parts_of(path@, resolve),
{
    let mut stack: Vec<Vec<char>> = Vec::new();
    let mut cur: Vec<char> = Vec::new();
    let mut i: usize = 0;
    assert(views(stack@) =~= Seq::<Part>::empty());
    while i < path.len()
        invariant
            i <= path@.len(),
            (views(stack@), cur@) == scan(
                path@.subrange(0, i as int),
                (Seq::empty(), Seq::empty()),
                resolve,
            ),
        decreases path@.len() - i,
    {
        let c = path[i];
        let ghost pre = path@.subrange(0, i as int);
        assert(path@.subrange(0, i as int + 1).drop_last() =~= pre);
        if c == '/' {
            let part = cur;
            cur = Vec::new();
            keep_part_exec(&mut stack, part, resolve);
        } else {
            cur.push(c);
        }
        i += 1;
    }
    assert(path@.subrange(0, path@.len() as int) =~= path@);
    keep_part_exec(&mut stack, cur, resolve);
    stack
}

/// `/first/.../last`, or `/` for no parts.
fn join_absolute(parts: &Vec<Vec<char>>) -> (r: Vec<char>)
    ensures
        r@ == absolute_of(views(parts@)),
{
    let mut r: Vec<char> = Vec::new();
    if parts.len() == 0 {
        r.push('/');
        assert(r@ =~= seq!['/']);
        return r;
    }
    let mut i: usize = 0;
    while i < parts.len()
        invariant
            i <= parts@.len(),
            r@ == slash_join(views(parts@).subrange(0, i as int)),
        decreases parts@.len() - i,
    {
        let ghost before = r@;
        r.push('/');
        let p = &parts[i];
        let mut j: usize = 0;
        while j < p.len()
            invariant
                j <= p@.len(),
                r@ == before + seq!['/'] + p@.subrange(0, j as int),
            decreases p@.len() - j,
        {
            r.push(p[j]);
            j += 1;
            assert(r@ =~= before + seq!['/'] + p@.subrange(0, j as int));
        }
        assert(p@.subrange(0, p@.len() as int) =~= p@);
        let ghost sub = views(parts@).subrange(0, i as int + 1);
        assert(sub.drop_last() =~= views(parts@).subrange(0, i as int));
        assert(sub.last() == p@);
        i += 1;
    }
    assert(views(parts@).subrange(0, parts@.len() as int) =~= views(parts@));
    r
}

/// `first/.../last` over the parts from `from` on, or empty for none.
fn join_plain(parts: &Vec<Vec<char>>, from: usize) -> (r: Vec<char>)
    requires
        from <= parts@.len(),
    ensures
        r@ == plain_join(views(parts@).subrange(from as int, parts@.len() as int)),
{
    if from == parts.len() {
        return Vec::new();
    }
    let mut r: Vec<char> = Vec::new();
    let mut i: usize = from;
    assert(views(parts@).subrange(from as int, from as int) =~= Seq::<Part>::empty());
    while i < parts.len()
        invariant
            from <= i <= parts@.len(),
            r@ == slash_join(views(parts@).subrange(from as int, i as int)),
        decreases parts@.len() - i,
    {
        let ghost before = r@;
        r.push('/');
        let p = &parts[i];
        let mut j: usize = 0;
        while j < p.len()
            invariant
                j <= p@.len(),
                r@ == before + seq!['/'] + p@.subrange(0, j as int),
            decreases p@.len() - j,
        {
            r.push(p[j]);
            j += 1;
            assert(r@ =~= before + seq!['/'] + p@.subrange(0, j as int));
        }
        assert(p@.subrange(0, p@.len() as int) =~= p@);
        let ghost sub = views(parts@).subrange(from as int, i as int + 1);
        assert(sub.drop_last() =~= views(parts@).subrange(from as int, i as int));
        assert(sub.last() == p@);
        i += 1;
    }
    suffix_from(&r, 1)
}

/// The parts of `path` with empty and `.` parts dropped and `..` kept.
pub(crate) fn split_parts_plain(path: &Vec<char>) -> (r: Vec<Vec<char>>)
    ensures
        views(r@) == parts_of(path@, false),
{
    split_parts(path, false)
}

/// All of `parts` joined by `/`.
pub(crate) fn join_plain_all(parts: &Vec<Vec<char>>) -> (r: Vec<char>)
    ensures
        r@ == plain_join(views(parts@)),
{
    let r = join_plain(parts, 0);
    assert(views(parts@).subrange(0, parts@.len() as int) =~= views(parts@));
    r
}

/// Normalises an absolute path: `.` parts and empty parts go, `..` drops the
/// part before it (never above the root), and the result has no trailing
/// slash but is `/` itself at the root.
pub fn normalize_path(path: &str) -> (r: String)
    ensures
        r@ == normalized(path@),
{
    let chars = chars_of(path);
    let parts = split_parts(&chars, true);
    let joined = join_absolute(&parts);
    string_of(&joined)
}

/// What turning `path` into an absolute path against `cwd` gives, once the
/// tilde expansion gave `t`.
pub open spec fn absolutized(t: Seq<char>, cwd: Seq<char>) -> Seq<char> {
    if is_absolute(t) || cwd.len() == 0 {
        t
    } else {
        cleaned_join(t, cwd)
    }
}

/// What `absolutize_path(path, cwd)` may return: the result for some
/// outcome of the tilde expansion.
pub open spec fn absolutize_outcome(path: Seq<char>, cwd: Seq<char>, r: Seq<char>) -> bool {
    exists|t: Seq<char>| tilde_outcome(path, t) && r == absolutized(t, cwd)
}

/// Turns `path` into an absolute path against `cwd`: a leading `~` becomes
/// the home directory, an absolute path or an empty `cwd` leaves the path as
/// it is, and otherwise the path is joined onto `cwd` with empty and `.`
/// parts dropped (`..` stays).
pub fn absolutize_path(path: &str, cwd: &str) -> (r: String)
    requires
        cwd@.len() == 0 || is_absolute(cwd@),
    ensures
        absolutize_outcome(path@, cwd@, r@),
{
    let t = expand_tilde(path);
    let tc = chars_of(t.as_str());
    if (tc.len() > 0 && tc[0] == '/') || cwd.unicode_len() == 0 {
        return t;
    }
    let mut joined = chars_of(cwd);
    joined.push('/');
    let mut k: usize = 0;
    let ghost base = joined@;
    while k < tc.len()
        invariant
            k <= tc@.len(),
            joined@ == base + tc@.subrange(0, k as int),
        decreases tc@.len() - k,
    {
        joined.push(tc[k]);
        k += 1;
        assert(joined@ =~= base + tc@.subrange(0, k as int));
    }
    assert(tc@.subrange(0, tc@.len() as int) =~= tc@);
    assert(joined@ == cwd@ + seq!['/'] + t@);
    let parts = split_parts(&joined, false);
    let out = join_absolute(&parts);
    string_of(&out)
}

/// Turns each path into an absolute path against `cwd`, as
/// `absolutize_path` does.
pub fn _absolutize_paths(paths: &Vec<String>, cwd: &str) -> (r: Vec<String>)
    requires
        cwd@.len() == 0 || is_absolute(cwd@),
    ensures
        r@.len() == paths@.len(),
        forall|i: int|
            0 <= i < paths@.len() ==> absolutize_outcome(paths@[i]@, cwd@, #[trigger] r@[i]@),
{
    let mut r: Vec<String> = Vec::new();
    let mut i: usize = 0;
    while i < paths.len()
        invariant
            i <= paths@.len(),
            cwd@.len() == 0 || is_absolute(cwd@),
            r@.len() == i,
            forall|j: int|
                0 <= j < i ==> absolutize_outcome(paths@[j]@, cwd@, #[trigger] r@[j]@),
        decreases paths@.len() - i,
    {
        let a = absolutize_path(paths[i].as_str(), cwd);
        r.push(a);
        i += 1;
    }
    r
}

/// The absolute, normalised path that a path argument stands for, once
/// its tilde expansion gave `t`: an absolute `t` is normalised; a relative
/// one is joined onto an absolute `cwd` first; with no `cwd`, or a relative
/// one, a relative path stands for nothing.
pub open spec fn resolved(t: Seq<char>, cwd: Seq<char>) -> Option<Seq<char>> {
    if is_absolute(t) {
        Some(normalized(t))
    } else if cwd.len() == 0 || !is_absolute(cwd) {
        None
    } else {
        Some(normalized(cleaned_join(t, cwd)))
    }
}

/// What `resolve_path(path, cwd)` may return: the result for some outcome
/// of the tilde expansion.
pub open spec fn resolve_outcome(path: Seq<char>, cwd: Seq<char>, r: Option<Seq<char>>) -> bool {
    exists|t: Seq<char>| tilde_outcome(path, t) && r == resolved(t, cwd)
}

/// The absolute, normalised path that the argument `path` stands for
/// against `cwd`: a leading `~` is the home directory, a relative path is
/// joined onto `cwd`, `.` and `..` are resolved and a trailing slash goes.
/// None when the path is relative and `cwd` is empty or relative.
pub fn resolve_path(path: &str, cwd: &str) -> (r: Option<String>)
    ensures
        resolve_outcome(path@, cwd@, match r {
            Some(s) => Some(s@),
            None => None,
        }),
{
    let t = expand_tilde(path);
    let tc = chars_of(t.as_str());
    if tc.len() > 0 && tc[0] == '/' {
        let parts = split_parts(&tc, true);
        let out = string_of(&join_absolute(&parts));
        assert(tilde_outcome(path@, t@) && Some(out@) == resolved(t@, cwd@));
        return Some(out);
    }
    let cc = chars_of(cwd);
    if cc.len() == 0 || cc[0] != '/' {
        assert(tilde_outcome(path@, t@) && None::<Seq<char>> == resolved(t@, cwd@));
        return None;
    }
    let mut joined = cc;
    joined.push('/');
    let ghost base = joined@;
    let mut k: usize = 0;
    while k < tc.len()
        invariant
            k <= tc@.len(),
            joined@ == base + tc@.subrange(0, k as int),
        decreases tc@.len() - k,
    {
        joined.push(tc[k]);
        k += 1;
        assert(joined@ =~= base + tc@.subrange(0, k as int));
    }
    assert(tc@.subrange(0, tc@.len() as int) =~= tc@);
    assert(joined@ == cwd@ + seq!['/'] + t@);
    let cleaned = join_absolute(&split_parts(&joined, false));
    let parts = split_parts(&cleaned, true);
    let out = string_of(&join_absolute(&parts));
    assert(tilde_outcome(path@, t@) && Some(out@) == resolved(t@, cwd@));
    Some(out)
}

/// A path that is already absolute and normalised stands for itself, and
/// so does it with a trailing slash added.
pub proof fn lemma_resolved_normalized(p: Seq<char>, cwd: Seq<char>)
    requires
        is_absolute(p),
        normalized(p) == p,
    ensures
        resolved(p, cwd) == Some(p),
        resolved(p + seq!['/'], cwd) == Some(p),
{
    let init: ScanState = (Seq::empty(), Seq::empty());
    lemma_scan_append(p, seq!['/'], init, true);
    lemma_scan_one('/', scan(p, init, true), true);
    assert(parts_of(p + seq!['/'], true) == parts_of(p, true));
    assert(is_absolute(p + seq!['/']));
}

/// What making `path` relative to `cwd` gives, once the tilde expansion of
/// `path` gave `t`.
pub open spec fn relativized(path: Seq<char>, t: Seq<char>, cwd: Seq<char>) -> Seq<char> {
    if cwd.len() == 0 || !is_absolute(cwd) || !is_absolute(t) {
        path
    } else {
        let tp = parts_of(t, false);
        let cp = parts_of(cwd, false);
        if cp.len() <= tp.len() && tp.subrange(0, cp.len() as int) == cp {
            let rest = tp.subrange(cp.len() as int, tp.len() as int);
            if rest.len() == 0 {
                seq!['.']
            } else {
                plain_join(rest)
            }
        } else {
            t
        }
    }
}

fn parts_prefix(t: &Vec<Vec<char>>, c: &Vec<Vec<char>>) -> (r: bool)
    ensures
        r == (views(c@).len() <= views(t@).len() && views(t@).subrange(0, views(c@).len() as int)
            == views(c@)),
{
    if c.len() > t.len() {
        return false;
    }
    let mut i: usize = 0;
    while i < c.len()
        invariant
            c@.len() <= t@.len(),
            i <= c@.len(),
            forall|j: int| 0 <= j < i ==> views(t@)[j] == views(c@)[j],
        decreases c@.len() - i,
    {
        if !chars_eq(&t[i], &c[i]) {
            assert(views(t@).subrange(0, views(c@).len() as int)[i as int] != views(c@)[i as int]);
            return false;
        }
        i += 1;
    }
    assert(views(t@).subrange(0, views(c@).len() as int) =~= views(c@));
    true
}

/// What `relativize_path(path, cwd)` may return: the result for some
/// outcome of the tilde expansion.
pub open spec fn relativize_outcome(path: Seq<char>, cwd: Seq<char>, r: Seq<char>) -> bool {
    exists|t: Seq<char>| tilde_outcome(path, t) && r == relativized(path, t, cwd)
}

/// Makes `path` relative to `cwd`: a leading `~` becomes the home directory;
/// when `cwd` is empty or relative, or the path is relative, the path comes
/// back as it was given; when `cwd` is a leading run of the path's parts,
/// the rest of them joined by `/` (`.` when nothing is left); otherwise the
/// expanded path.
pub fn relativize_path(path: &str, cwd: &str) -> (r: String)
    ensures
        relativize_outcome(path@, cwd@, r@),
{
    let t = expand_tilde(path);
    let tc = chars_of(t.as_str());
    let cc = chars_of(cwd);
    if cc.len() == 0 || cc[0] != '/' || tc.len() == 0 || tc[0] != '/' {
        return string_of(&chars_of(path));
    }
    let tp = split_parts(&tc, false);
    let cp = split_parts(&cc, false);
    if parts_prefix(&tp, &cp) {
        if tp.len() == cp.len() {
            let mut dot: Vec<char> = Vec::new();
            dot.push('.');
            assert(dot@ =~= seq!['.']);
            string_of(&dot)
        } else {
            let rest = join_plain(&tp, cp.len());
            string_of(&rest)
        }
    } else {
        t
    }
}

/// Makes each path relative to `cwd`, as `relativize_path` does.
pub fn relativize_paths(paths: &Vec<String>, cwd: &str) -> (r: Vec<String>)
    ensures
        r@.len() == paths@.len(),
        forall|i: int|
            0 <= i < paths@.len() ==> relativize_outcome(paths@[i]@, cwd@, #[trigger] r@[i]@),
{
    let mut r: Vec<String> = Vec::new();
    let mut i: usize = 0;
    while i < paths.len()
        invariant
            i <= paths@.len(),
            r@.len() == i,
            forall|j: int|
                0 <= j < i ==> relativize_outcome(paths@[j]@, cwd@, #[trigger] r@[j]@),
        decreases paths@.len() - i,
    {
        let a = relativize_path(paths[i].as_str(), cwd);
        r.push(a);
        i += 1;
    }
    r
}

/// The quoted paths, separated by single spaces.
pub open spec fn quoted_list(paths: Seq<Seq<char>>) -> Seq<char>
    decreases paths.len(),
{
    if paths.len() == 0 {
        Seq::empty()
    } else if paths.len() == 1 {
        json_quoted(paths[0])
    } else {
        quoted_list(paths.drop_last()) + seq![' '] + json_quoted(paths.last())
    }
}

pub open spec fn string_views(v: Seq<String>) -> Seq<Seq<char>> {
    v.map_values(|s: String| s@)
}

/// Quotes each path as a JSON string (which escapes what a shell would read
/// specially inside double quotes) and joins them with spaces.
pub fn quote_paths(paths: &Vec<String>) -> (r: String)
    ensures
        r@ == quoted_list(string_views(paths@)),
{
    let mut out: Vec<char> = Vec::new();
    let mut i: usize = 0;
    while i < paths.len()
        invariant
            i <= paths@.len(),
            out@ == quoted_list(string_views(paths@).subrange(0, i as int)),
        decreases paths@.len() - i,
    {
        let q = json_quote(paths[i].as_str());
        let qc = chars_of(q.as_str());
        let ghost before = out@;
        if i > 0 {
            out.push(' ');
        }
        let ghost mid = out@;
        let mut j: usize = 0;
        while j < qc.len()
            invariant
                j <= qc@.len(),
                out@ == mid + qc@.subrange(0, j as int),
            decreases qc@.len() - j,
        {
            out.push(qc[j]);
            j += 1;
            assert(out@ =~= mid + qc@.subrange(0, j as int));
        }
        assert(qc@.subrange(0, qc@.len() as int) =~= qc@);
        let ghost sub = string_views(paths@).subrange(0, i as int + 1);
        assert(sub.drop_last() =~= string_views(paths@).subrange(0, i as int));
        assert(sub.last() == paths@[i as int]@);
        if i == 0 {
            assert(sub.len() == 1);
            assert(out@ =~= json_quoted(sub[0]));
        }
        i += 1;
    }
    assert(string_views(paths@).subrange(0, paths@.len() as int) =~= string_views(paths@));
    string_of(&out)
}

} // verus!
