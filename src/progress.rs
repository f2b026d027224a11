//! Long-running shell operations with progress: the command line built from
//! a template, the expected total, and the supervisor that turns the
//! command's output into progress messages and exactly one final message.

use vstd::prelude::*;

use crate::message::{Message, MessageKind};
use crate::path::{quote_paths, quoted_list, string_views};
use crate::task_manager::{TaskControl, TaskStatus};
use crate::text::{chars_of, string_of};

verus! {

// ---------------------------------------------------------------------------
// command templates

/// `s` with every occurrence of `pat` replaced by `with`, left to right,
/// as `str::replace` does.
pub open spec fn replace_all(s: Seq<char>, pat: Seq<char>, with: Seq<char>) -> Seq<char>
    decreases s.len(),
{
    if pat.len() == 0 || s.len() < pat.len() {
        s
    } else if s.subrange(0, pat.len() as int) == pat {
        with + replace_all(s.subrange(pat.len() as int, s.len() as int), pat, with)
    } else {
        seq![s[0]] + replace_all(s.drop_first(), pat, with)
    }
}

/// Replaces every occurrence of the two-character `pat` in `s` by `with`.
fn replace_pair(s: &Vec<char>, pat: &Vec<char>, with: &Vec<char>) -> (r: Vec<char>)
    requires
        pat@.len() == 2,
    ensures
        r@ == replace_all(s@, pat@, with@),
{
    let mut out: Vec<char> = Vec::new();
    let mut i: usize = 0;
    assert(s@.subrange(0, s@.len() as int) =~= s@);
    assert(out@ + s@ =~= s@);
    while i < s.len()
        invariant
            pat@.len() == 2,
            i <= s@.len(),
            replace_all(s@, pat@, with@) == out@ + replace_all(s@.subrange(i as int, s@.len() as int), pat@, with@),
        decreases s@.len() - i,
    {
        let ghost rest = s@.subrange(i as int, s@.len() as int);
        if i + 1 < s.len() && s[i] == pat[0] && s[i + 1] == pat[1] {
            assert(rest.subrange(0, 2) =~= pat@);
            assert(rest.subrange(2, rest.len() as int) =~= s@.subrange(i + 2, s@.len() as int));
            let ghost before = out@;
            let mut k: usize = 0;
            while k < with.len()
                invariant
                    k <= with@.len(),
                    out@ == before + with@.subrange(0, k as int),
                decreases with@.len() - k,
            {
                out.push(with[k]);
                k += 1;
                assert(out@ =~= before + with@.subrange(0, k as int));
            }
            assert(with@.subrange(0, with@.len() as int) =~= with@);
            assert(out@ + replace_all(s@.subrange(i + 2, s@.len() as int), pat@, with@) =~= before + replace_all(rest, pat@, with@));
            i += 2;
        } else {
            proof {
                if rest.len() >= 2 {
                    assert(rest.subrange(0, 2) != pat@) by {
                        assert(rest.subrange(0, 2)[0] == s@[i as int]);
                        assert(rest.subrange(0, 2)[1] == s@[i + 1]);
                    }
                }
            }
            assert(rest.drop_first() =~= s@.subrange(i + 1, s@.len() as int));
            let ghost before = out@;
            out.push(s[i]);
            assert(out@ + replace_all(s@.subrange(i + 1, s@.len() as int), pat@, with@) =~= before + replace_all(rest, pat@, with@));
            i += 1;
        }
    }
    assert(replace_all(s@.subrange(s@.len() as int, s@.len() as int), pat@, with@) =~= Seq::<char>::empty());
    assert(out@ + Seq::<char>::empty() =~= out@);
    out
}

/// The command line for a template: `%s` becomes the quoted sources, and
/// `%d` the quoted destination when there is one.
pub open spec fn command_line(template: Seq<char>, srcs: Seq<Seq<char>>, dest: Option<Seq<char>>) -> Seq<char> {
    let with_srcs = replace_all(template, seq!['%', 's'], quoted_list(srcs));
    match dest {
        Some(d) => replace_all(with_srcs, seq!['%', 'd'], quoted_list(seq![d])),
        None => with_srcs,
    }
}

/// Builds the shell command line from `template`: `%s` becomes the sources,
/// each quoted, separated by spaces; `%d` becomes the quoted destination,
/// when there is one (and stays otherwise).
pub fn command_line_of(template: &str, srcs: &Vec<String>, dest: &Option<String>) -> (r: String)
    ensures
        r@ == command_line(template@, string_views(srcs@), match dest {
            Some(d) => Some(d@),
            None => None,
        }),
{
    let t = chars_of(template);
    let mut ps: Vec<char> = Vec::new();
    ps.push('%');
    ps.push('s');
    assert(ps@ =~= seq!['%', 's']);
    let q = chars_of(quote_paths(srcs).as_str());
    let with_srcs = replace_pair(&t, &ps, &q);
    match dest {
        Some(d) => {
            let mut one: Vec<String> = Vec::new();
            one.push(string_of(&chars_of(d.as_str())));
            assert(string_views(one@) =~= seq![d@]);
            let qd = chars_of(quote_paths(&one).as_str());
            let mut pd: Vec<char> = Vec::new();
            pd.push('%');
            pd.push('d');
            assert(pd@ =~= seq!['%', 'd']);
            string_of(&replace_pair(&with_srcs, &pd, &qd))
        },
        None => string_of(&with_srcs),
    }
}

/// The command line of a plain shell task: like `command_line`, except
/// that `%s` stays when no sources were given.
pub open spec fn optional_command_line(template: Seq<char>, srcs: Option<Seq<Seq<char>>>, dest: Option<Seq<char>>) -> Seq<char> {
    let with_srcs = match srcs {
        Some(s) => replace_all(template, seq!['%', 's'], quoted_list(s)),
        None => template,
    };
    match dest {
        Some(d) => replace_all(with_srcs, seq!['%', 'd'], quoted_list(seq![d])),
        None => with_srcs,
    }
}

/// Builds a plain shell task's command line: `%s` becomes the quoted
/// sources when there are any, `%d` the quoted destination when there is
/// one.
pub fn optional_command_line_of(template: &str, srcs: &Option<Vec<String>>, dest: &Option<String>) -> (r: String)
    ensures
        r@ == optional_command_line(template@, match srcs {
            Some(s) => Some(string_views(s@)),
            None => None,
        }, match dest {
            Some(d) => Some(d@),
            None => None,
        }),
{
    match srcs {
        Some(s) => command_line_of(template, s, dest),
        None => {
            let t = chars_of(template);
            match dest {
                Some(d) => {
                    let mut one: Vec<String> = Vec::new();
                    one.push(string_of(&chars_of(d.as_str())));
                    assert(string_views(one@) =~= seq![d@]);
                    let qd = chars_of(quote_paths(&one).as_str());
                    let mut pd: Vec<char> = Vec::new();
                    pd.push('%');
                    pd.push('d');
                    assert(pd@ =~= seq!['%', 'd']);
                    string_of(&replace_pair(&t, &pd, &qd))
                },
                None => string_of(&t),
            }
        },
    }
}

// ---------------------------------------------------------------------------
// the expected total

/// Whether `c` has the Unicode White_Space property, as
/// `char::is_whitespace` says.
pub open spec fn is_white(c: char) -> bool {
    let u = c as u32;
    (0x9 <= u && u <= 0xd) || u == 0x20 || u == 0x85 || u == 0xa0 || u == 0x1680 || (0x2000 <= u && u
        <= 0x200a) || u == 0x2028 || u == 0x2029 || u == 0x202f || u == 0x205f || u == 0x3000
}

fn is_white_exec(c: char) -> (r: bool)
    ensures
        r == is_white(c),
{
    let u = c as u32;
    (0x9 <= u && u <= 0xd) || u == 0x20 || u == 0x85 || u == 0xa0 || u == 0x1680 || (0x2000 <= u && u
        <= 0x200a) || u == 0x2028 || u == 0x2029 || u == 0x202f || u == 0x205f || u == 0x3000
}

pub open spec fn trim_start(s: Seq<char>) -> Seq<char>
    decreases s.len(),
{
    if s.len() > 0 && is_white(s[0]) {
        trim_start(s.drop_first())
    } else {
        s
    }
}

pub open spec fn trim_end(s: Seq<char>) -> Seq<char>
    decreases s.len(),
{
    if s.len() > 0 && is_white(s.last()) {
        trim_end(s.drop_last())
    } else {
        s
    }
}

/// The text without leading and trailing white space, as `str::trim`
/// gives it.
pub open spec fn trimmed(s: Seq<char>) -> Seq<char> {
    trim_end(trim_start(s))
}

/// Drops leading and trailing white space.
pub fn trim_text(s: &str) -> (r: String)
    ensures
        r@ == trimmed(s@),
{
    let c = chars_of(s);
    let mut start: usize = 0;
    assert(c@.subrange(0, c@.len() as int) =~= c@);
    while start < c.len() && is_white_exec(c[start])
        invariant
            start <= c@.len(),
            trim_start(c@) == trim_start(c@.subrange(start as int, c@.len() as int)),
        decreases c@.len() - start,
    {
        assert(c@.subrange(start as int, c@.len() as int).drop_first() =~= c@.subrange(start + 1, c@.len() as int));
        start += 1;
    }
    let ghost t = c@.subrange(start as int, c@.len() as int);
    assert(trim_start(c@) == t);
    let mut end: usize = c.len();
    assert(t.subrange(0, t.len() as int) =~= t);
    while end > start && is_white_exec(c[end - 1])
        invariant
            start <= end <= c@.len(),
            t == c@.subrange(start as int, c@.len() as int),
            trim_end(t) == trim_end(c@.subrange(start as int, end as int)),
        decreases end,
    {
        assert(c@.subrange(start as int, end as int).drop_last() =~= c@.subrange(start as int, end - 1));
        end -= 1;
    }
    let ghost u = c@.subrange(start as int, end as int);
    assert(trim_end(u) == u);
    let mut out: Vec<char> = Vec::new();
    let mut k: usize = start;
    while k < end
        invariant
            start <= k <= end,
            end <= c@.len(),
            out@ == c@.subrange(start as int, k as int),
        decreases end - k,
    {
        out.push(c[k]);
        k += 1;
        assert(out@ =~= c@.subrange(start as int, k as int));
    }
    string_of(&out)
}

pub open spec fn is_digit(c: char) -> bool {
    '0' <= c && c <= '9'
}

/// The number that the decimal digits `s` spell.
pub open spec fn digits_value(s: Seq<char>) -> nat
    decreases s.len(),
{
    if s.len() == 0 {
        0
    } else {
        digits_value(s.drop_last()) * 10 + (s.last() as nat - '0' as nat) as nat
    }
}

/// The unsigned number that `s` spells, as `usize::from_str` reads it: an
/// optional `+`, then one or more decimal digits, of a value that fits.
pub open spec fn parsed_count(s: Seq<char>) -> Option<usize> {
    let d = without_plus(s);
    if d.len() > 0 && all_digits(d) && digits_value(d) <= usize::MAX {
        Some(digits_value(d) as usize)
    } else {
        None
    }
}

/// `s` without a leading `+`.
pub open spec fn without_plus(s: Seq<char>) -> Seq<char> {
    if s.len() > 0 && s[0] == '+' {
        s.drop_first()
    } else {
        s
    }
}

pub open spec fn all_digits(d: Seq<char>) -> bool {
    forall|i: int| 0 <= i < d.len() ==> is_digit(#[trigger] d[i])
}

/// Reads an unsigned decimal number: an optional `+` and digits.
pub fn parse_count(s: &str) -> (r: Option<usize>)
    ensures
        r == parsed_count(s@),
{
    let c = chars_of(s);
    let start: usize = if c.len() > 0 && c[0] == '+' { 1 } else { 0 };
    let ghost d = without_plus(s@);
    assert(d =~= s@.subrange(start as int, s@.len() as int));
    if start == c.len() {
        return None;
    }
    let mut value: usize = 0;
    let mut overflow = false;
    let mut i: usize = start;
    while i < c.len()
        invariant
            start <= i <= c@.len(),
            c@ == s@,
            d == s@.subrange(start as int, s@.len() as int),
            d == without_plus(s@),
            forall|k: int| start <= k < i ==> is_digit(#[trigger] c@[k]),
            !overflow ==> value as nat == digits_value(s@.subrange(start as int, i as int)),
            overflow ==> digits_value(s@.subrange(start as int, i as int)) > usize::MAX,
        decreases c@.len() - i,
    {
        let ch = c[i];
        if !('0' <= ch && ch <= '9') {
            assert(d[i - start] == c@[i as int]);
            assert(!is_digit(d[i - start]));
            assert(!all_digits(d));
            return None;
        }
        let digit = (ch as u32 - '0' as u32) as usize;
        let ghost pre = s@.subrange(start as int, i as int);
        let ghost nxt = s@.subrange(start as int, i + 1);
        assert(nxt.drop_last() =~= pre);
        assert(digits_value(nxt) == digits_value(pre) * 10 + digit);
        if overflow {
            assert(digits_value(nxt) > usize::MAX) by (nonlinear_arith)
                requires
                    digits_value(pre) > usize::MAX,
                    digits_value(nxt) == digits_value(pre) * 10 + digit,
            ;
        } else if value > (usize::MAX - digit) / 10 {
            assert(digits_value(nxt) > usize::MAX) by (nonlinear_arith)
                requires
                    value > (usize::MAX - digit) / 10,
                    digits_value(nxt) == value * 10 + digit,
                    digit <= 9,
            ;
            overflow = true;
        } else {
            assert(value * 10 + digit <= usize::MAX) by (nonlinear_arith)
                requires
                    value <= (usize::MAX - digit) / 10,
                    digit <= 9,
            ;
            value = value * 10 + digit;
        }
        i += 1;
    }
    assert(s@.subrange(start as int, i as int) =~= d);
    assert(all_digits(d)) by {
        assert forall|k: int| 0 <= k < d.len() implies is_digit(#[trigger] d[k]) by {
            assert(d[k] == c@[k + start]);
        }
    }
    if overflow {
        return None;
    }
    Some(value)
}

/// The total that progress is measured against, from the counting command:
/// the number it printed, trimmed; the largest `usize` when it failed or
/// printed no number.
pub open spec fn total_of(success: bool, stdout: Seq<char>) -> usize {
    if !success {
        usize::MAX
    } else {
        match parsed_count(trimmed(stdout)) {
            Some(n) => n,
            None => usize::MAX,
        }
    }
}

/// Reads the expected total from the counting command's exit status and
/// output.
pub fn expected_total(success: bool, stdout: &str) -> (r: usize)
    ensures
        r == total_of(success, stdout@),
{
    if !success {
        return usize::MAX;
    }
    let t = trim_text(stdout);
    match parse_count(t.as_str()) {
        Some(n) => n,
        None => usize::MAX,
    }
}

/// How far a task is, in percent, once `count` lines of output were read.
pub open spec fn percent_of(count: nat, total: nat) -> nat
    recommends
        total > 0,
{
    ((count + 1) * 100 / total) as nat
}

// ---------------------------------------------------------------------------
// the supervisor

/// How the command ended, once its output was read to the end.
pub enum ExitOutcome {
    /// It exited successfully.
    Success,
    /// It failed; what it wrote to its error stream.
    Failure(String),
    /// Waiting for it failed, with this text.
    WaitFailed(String),
}

/// Where a supervisor is.
#[derive(Clone, Copy, Debug, PartialEq, Eq, Structural)]
pub enum Phase {
    /// Reading the command's output.
    Reading,
    /// The output is done; the command's exit is awaited.
    Exiting,
    /// The final message was sent.
    Done,
}

/// What a supervisor sent: the start, a progress tick, an error while
/// reading, and the three final messages (the end, the error once the
/// command exited, the cancellation).
pub ghost enum Sent {
    Started,
    Progress,
    ReadError,
    Ended,
    Failed,
    Aborted,
}

pub open spec fn is_terminal(s: Sent) -> bool {
    s == Sent::Ended || s == Sent::Failed || s == Sent::Aborted
}

/// The shape of what a supervisor has sent: the start first, then only
/// progress and read errors, then (once done) exactly one final message,
/// last.
pub open spec fn trace_ok(t: Seq<Sent>, done: bool) -> bool {
    &&& t.len() >= 1
    &&& t[0] == Sent::Started
    &&& forall|i: int| 1 <= i < t.len() - 1 ==> !is_terminal(#[trigger] t[i]) && t[i] != Sent::Started
    &&& t.len() >= 2 ==> t.last() != Sent::Started
    &&& (done <==> (t.len() >= 2 && is_terminal(t.last())))
}

/// The line count after one more line (it stops at the largest `usize`).
pub open spec fn next_count(count: nat) -> nat {
    if count < usize::MAX {
        count + 1
    } else {
        count
    }
}

/// Follows one progress task: counts the lines of its output, says how far
/// it is on each tick, and ends with one final message.
pub struct ProgressSupervisor {
    pid: String,
    total: usize,
    count: usize,
    phase: Phase,
    sent: Ghost<Seq<Sent>>,
}

impl ProgressSupervisor {
    pub closed spec fn trace(&self) -> Seq<Sent> {
        self.sent@
    }

    pub closed spec fn phase(&self) -> Phase {
        self.phase
    }

    pub closed spec fn pid(&self) -> Seq<char> {
        self.pid@
    }

    pub closed spec fn count(&self) -> nat {
        self.count as nat
    }

    pub closed spec fn total(&self) -> nat {
        self.total as nat
    }

    /// What was sent has the right shape for the phase.
    pub closed spec fn wf(&self) -> bool {
        &&& trace_ok(self.sent@, self.phase == Phase::Done)
        &&& self.total > 0
    }

    /// Starts following task `pid` of command `cid`, which should produce
    /// `total` lines of output (at least one is assumed); the message that the
    /// task started comes back, and is the first one sent.
    pub fn start(cid: &str, pid: &str, total: usize) -> (r: (ProgressSupervisor, Message))
        ensures
            r.0.wf(),
            r.0.phase() == Phase::Reading,
            r.0.pid() == pid@,
            r.0.count() == 0,
            r.0.total() == (if total == 0 { 1 } else { total as nat }),
            r.0.trace() == seq![Sent::Started],
            r.1.cid@ == cid@,
            r.1.status@ == crate::message::status_text(MessageKind::ProgressTask),
            r.1.data matches crate::message::Payload::Pid { pid: p } && p@ == pid@,
    {
        let ghost init = seq![Sent::Started];
        let s = ProgressSupervisor {
            pid: string_of(&chars_of(pid)),
            total: if total == 0 { 1 } else { total },
            count: 0,
            phase: Phase::Reading,
            sent: Ghost(init),
        };
        (s, Message::progress_task(cid, pid))
    }

    /// Where the supervisor is.
    pub fn current_phase(&self) -> (r: Phase)
        ensures
            r == self.phase(),
    {
        self.phase
    }

    /// Whether the final message was sent.
    pub fn is_done(&self) -> (r: bool)
        ensures
            r == (self.phase() == Phase::Done),
    {
        match self.phase {
            Phase::Done => true,
            _ => false,
        }
    }

    /// A second passed while reading: the progress message, with
    /// `floor((count + 1) / total * 100)` percent.
    pub fn on_tick(&mut self) -> (r: Message)
        requires
            old(self).wf(),
            old(self).phase() == Phase::Reading,
        ensures
            final(self).wf(),
            final(self).phase() == Phase::Reading,
            final(self).count() == old(self).count(),
            final(self).total() == old(self).total(),
            final(self).pid() == old(self).pid(),
            final(self).trace() == old(self).trace().push(Sent::Progress),
            r.cid@.len() == 0,
            r.status@ == crate::message::status_text(MessageKind::Progress),
            r.data matches crate::message::Payload::Progress { pid: p, progress: n } && p@ == old(self).pid()
                && n as nat == percent_of(old(self).count(), old(self).total()),
    {
        let n: u128 = (self.count as u128 + 1) * 100 / self.total as u128;
        assert(n <= (self.count as u128 + 1) * 100);
        let m = Message::progress(self.pid.as_str(), n);
        proof {
            let old_t = self.sent@;
            self.sent = Ghost(old_t.push(Sent::Progress));
            assert(self.sent@.last() == Sent::Progress);
            assert forall|i: int| 1 <= i < self.sent@.len() - 1 implies !is_terminal(#[trigger] self.sent@[i]) && self.sent@[i] != Sent::Started by {
                assert(self.sent@[i] == old_t[i]);
            }
        }
        m
    }

    /// A line of output was read.
    pub fn on_line(&mut self)
        requires
            old(self).wf(),
            old(self).phase() == Phase::Reading,
        ensures
            final(self).wf(),
            final(self).phase() == Phase::Reading,
            final(self).count() == next_count(old(self).count()),
            final(self).total() == old(self).total(),
            final(self).pid() == old(self).pid(),
            final(self).trace() == old(self).trace(),
    {
        self.count = if self.count < usize::MAX { self.count + 1 } else { self.count };
    }

    /// The output ended: the command's exit is to be awaited.
    pub fn on_eof(&mut self)
        requires
            old(self).wf(),
            old(self).phase() == Phase::Reading,
        ensures
            final(self).wf(),
            final(self).phase() == Phase::Exiting,
            final(self).pid() == old(self).pid(),
            final(self).count() == old(self).count(),
            final(self).total() == old(self).total(),
            final(self).trace() == old(self).trace(),
    {
        self.phase = Phase::Exiting;
    }

    /// Reading the output failed: the error is reported, the line counted,
    /// and reading stops (`true`) once as many lines as expected were
    /// counted or when no total is known.
    pub fn on_read_error(&mut self, msg: &str) -> (r: (Message, bool))
        requires
            old(self).wf(),
            old(self).phase() == Phase::Reading,
        ensures
            final(self).wf(),
            final(self).count() == next_count(old(self).count()),
            final(self).total() == old(self).total(),
            final(self).pid() == old(self).pid(),
            final(self).trace() == old(self).trace().push(Sent::ReadError),
            r.1 == (final(self).count() >= final(self).total() || final(self).total() == usize::MAX),
            final(self).phase() == (if r.1 { Phase::Exiting } else { Phase::Reading }),
            r.0.status@ == crate::message::status_text(MessageKind::ProgressError),
            r.0.data matches crate::message::Payload::ProgressError { pid: p, msg: m } && p@ == old(self).pid() && m@ == msg@,
    {
        self.count = if self.count < usize::MAX { self.count + 1 } else { self.count };
        let m = Message::progress_error(self.pid.as_str(), msg);
        let stop = self.count >= self.total || self.total == usize::MAX;
        if stop {
            self.phase = Phase::Exiting;
        }
        proof {
            let old_t = self.sent@;
            self.sent = Ghost(old_t.push(Sent::ReadError));
            assert forall|i: int| 1 <= i < self.sent@.len() - 1 implies !is_terminal(#[trigger] self.sent@[i]) && self.sent@[i] != Sent::Started by {
                assert(self.sent@[i] == old_t[i]);
            }
        }
        (m, stop)
    }

    /// The command exited (or waiting for it failed): the final message,
    /// the end or the error with what the command reported, and the notice
    /// that the task ended.
    pub fn on_exit(&mut self, outcome: &ExitOutcome) -> (r: (Message, TaskControl))
        requires
            old(self).wf(),
            old(self).phase() == Phase::Exiting,
        ensures
            final(self).wf(),
            final(self).phase() == Phase::Done,
            final(self).pid() == old(self).pid(),
            r.1.pid@ == old(self).pid(),
            r.1.status == TaskStatus::End,
            match outcome {
                ExitOutcome::Success => final(self).trace() == old(self).trace().push(Sent::Ended)
                    && r.0.status@ == crate::message::status_text(MessageKind::ProgressEnd)
                    && (r.0.data matches crate::message::Payload::Pid { pid: p } && p@ == old(self).pid()),
                ExitOutcome::Failure(text) => final(self).trace() == old(self).trace().push(Sent::Failed)
                    && r.0.status@ == crate::message::status_text(MessageKind::ProgressError)
                    && (r.0.data matches crate::message::Payload::ProgressError { pid: p, msg: m } && p@ == old(self).pid() && m@ == text@),
                ExitOutcome::WaitFailed(text) => final(self).trace() == old(self).trace().push(Sent::Failed)
                    && r.0.status@ == crate::message::status_text(MessageKind::ProgressError)
                    && (r.0.data matches crate::message::Payload::ProgressError { pid: p, msg: m } && p@ == old(self).pid() && m@ == text@),
            },
    {
        let m = match outcome {
            ExitOutcome::Success => Message::progress_end(self.pid.as_str()),
            ExitOutcome::Failure(text) => Message::progress_error(self.pid.as_str(), text.as_str()),
            ExitOutcome::WaitFailed(text) => Message::progress_error(self.pid.as_str(), text.as_str()),
        };
        self.phase = Phase::Done;
        proof {
            let last = match outcome {
                ExitOutcome::Success => Sent::Ended,
                _ => Sent::Failed,
            };
            let old_t = self.sent@;
            self.sent = Ghost(old_t.push(last));
            assert forall|i: int| 1 <= i < self.sent@.len() - 1 implies !is_terminal(#[trigger] self.sent@[i]) && self.sent@[i] != Sent::Started by {
                assert(self.sent@[i] == old_t[i]);
                if i == old_t.len() - 1 {
                    assert(old_t.len() >= 2);
                }
            }
        }
        let ctrl = TaskControl { pid: string_of(&chars_of(self.pid.as_str())), status: TaskStatus::End };
        (m, ctrl)
    }

    /// The task was cancelled before it ended: the cancellation message.
    pub fn on_abort(&mut self) -> (r: Message)
        requires
            old(self).wf(),
            old(self).phase() != Phase::Done,
        ensures
            final(self).wf(),
            final(self).phase() == Phase::Done,
            final(self).pid() == old(self).pid(),
            final(self).trace() == old(self).trace().push(Sent::Aborted),
            r.status@ == crate::message::status_text(MessageKind::ProgressAbort),
            r.data matches crate::message::Payload::Pid { pid: p } && p@ == old(self).pid(),
    {
        let m = Message::progress_abort(self.pid.as_str());
        self.phase = Phase::Done;
        proof {
            let old_t = self.sent@;
            self.sent = Ghost(old_t.push(Sent::Aborted));
            assert forall|i: int| 1 <= i < self.sent@.len() - 1 implies !is_terminal(#[trigger] self.sent@[i]) && self.sent@[i] != Sent::Started by {
                assert(self.sent@[i] == old_t[i]);
            }
        }
        m
    }

    /// Whatever a supervisor has sent starts with the message that the
    /// task started; no final message comes before the last one; and once
    /// it is done exactly one final message was sent, the last.
    pub proof fn lemma_one_final_message(&self)
        requires
            self.wf(),
        ensures
            self.trace()[0] == Sent::Started,
            forall|i: int| 0 <= i < self.trace().len() - 1 ==> !is_terminal(#[trigger] self.trace()[i]),
            self.phase() == Phase::Done <==> (self.trace().len() >= 2 && is_terminal(self.trace().last())),
            self.phase() == Phase::Done ==> forall|i: int| 0 <= i < self.trace().len() && is_terminal(#[trigger] self.trace()[i]) ==> i == self.trace().len() - 1,
    {
    }
}

} // verus!
