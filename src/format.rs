//! Text shown in listings: sizes in the style of `ls -h` and permission
//! strings.

use vstd::prelude::*;

use crate::text::{chars_of, string_of};

verus! {

pub open spec fn digit_char(d: nat) -> char {
    if d == 0 { '0' }
    else if d == 1 { '1' }
    else if d == 2 { '2' }
    else if d == 3 { '3' }
    else if d == 4 { '4' }
    else if d == 5 { '5' }
    else if d == 6 { '6' }
    else if d == 7 { '7' }
    else if d == 8 { '8' }
    else { '9' }
}

/// The decimal digits of `n`, without leading zeros.
pub open spec fn decimal(n: nat) -> Seq<char>
    decreases n,
{
    if n < 10 {
        seq![digit_char(n)]
    } else {
        decimal(n / 10).push(digit_char(n % 10))
    }
}

fn digit_exec(d: u64) -> (c: char)
    requires
        d < 10,
    ensures
        c == digit_char(d as nat),
{
    if d == 0 { '0' }
    else if d == 1 { '1' }
    else if d == 2 { '2' }
    else if d == 3 { '3' }
    else if d == 4 { '4' }
    else if d == 5 { '5' }
    else if d == 6 { '6' }
    else if d == 7 { '7' }
    else if d == 8 { '8' }
    else { '9' }
}

/// The decimal digits of `n`.
pub fn decimal_chars(n: u64) -> (r: Vec<char>)
    ensures
        r@ == decimal(n as nat),
    decreases n,
{
    if n < 10 {
        let mut r: Vec<char> = Vec::new();
        r.push(digit_exec(n));
        assert(r@ =~= seq![digit_char(n as nat)]);
        r
    } else {
        let mut r = decimal_chars(n / 10);
        r.push(digit_exec(n % 10));
        r
    }
}

pub open spec fn pow1024(k: nat) -> nat
    decreases k,
{
    if k == 0 {
        1
    } else {
        1024 * pow1024((k - 1) as nat)
    }
}

/// The unit that `ls` picks for `bytes`: the largest power of 1024 not
/// above it, up to terabytes.
pub open spec fn size_unit(bytes: nat) -> nat {
    if bytes >= pow1024(4) {
        4
    } else if bytes >= pow1024(3) {
        3
    } else if bytes >= pow1024(2) {
        2
    } else if bytes >= pow1024(1) {
        1
    } else {
        0
    }
}

pub open spec fn unit_char(k: nat) -> char {
    if k == 1 { 'K' }
    else if k == 2 { 'M' }
    else if k == 3 { 'G' }
    else { 'T' }
}

/// `n / d` rounded to the nearest integer, ties to the even one.
pub open spec fn div_round_even(n: nat, d: nat) -> nat
    recommends
        d > 0,
{
    let q = n / d;
    let rem = n % d;
    if 2 * rem > d || (2 * rem == d && q % 2 == 1) {
        q + 1
    } else {
        q
    }
}

/// The size text: the byte count below 1024, otherwise the size in the
/// chosen unit with one decimal (rounded half to even) and the unit's letter.
pub open spec fn size_text(bytes: nat) -> Seq<char> {
    let k = size_unit(bytes);
    if k == 0 {
        decimal(bytes)
    } else {
        let tenths = div_round_even(bytes * 10, pow1024(k));
        decimal(tenths / 10) + seq!['.', digit_char(tenths % 10), unit_char(k)]
    }
}

/// Formats a byte count the way `ls -h` does: `512`, `1.5K`, `2.0M`.
pub fn ls_style_size(bytes: u64) -> (r: String)
    ensures
        r@ == size_text(bytes as nat),
{
    proof {
        reveal_with_fuel(pow1024, 5);
    }
    assert(pow1024(4) == 1099511627776);
    let (unit, div): (u64, u64) = if bytes >= 1099511627776 {
        (4, 1099511627776)
    } else if bytes >= 1073741824 {
        (3, 1073741824)
    } else if bytes >= 1048576 {
        (2, 1048576)
    } else if bytes >= 1024 {
        (1, 1024)
    } else {
        (0, 1)
    };
    if unit == 0 {
        let d = decimal_chars(bytes);
        return string_of(&d);
    }
    let n: u128 = bytes as u128 * 10;
    let q: u128 = n / div as u128;
    let rem: u128 = n % div as u128;
    let tenths: u128 = if 2 * rem > div as u128 || (2 * rem == div as u128 && q % 2 == 1) {
        q + 1
    } else {
        q
    };
    assert(tenths <= bytes as u128 * 10 + 1);
    let whole = decimal_chars((tenths / 10) as u64);
    let mut out = whole;
    out.push('.');
    out.push(digit_exec((tenths % 10) as u64));
    let letter = if unit == 1 {
        'K'
    } else if unit == 2 {
        'M'
    } else if unit == 3 {
        'G'
    } else {
        'T'
    };
    out.push(letter);
    assert(out@ =~= decimal((tenths / 10) as nat) + seq!['.', digit_char((tenths % 10) as nat), unit_char(unit as nat)]);
    string_of(&out)
}

/// The permission character at position `i` (0 to 8) of `rwxrwxrwx`.
pub open spec fn perm_letter(i: int) -> char {
    if i % 3 == 0 {
        'r'
    } else if i % 3 == 1 {
        'w'
    } else {
        'x'
    }
}

/// The mode bit that position `i` of the permission string shows.
pub open spec fn perm_bit(i: int) -> u32 {
    256u32 >> (i as u32)
}

/// The nine permission characters of `mode`.
pub open spec fn perm_text(mode: u32) -> Seq<char> {
    Seq::new(9, |i: int| if mode & perm_bit(i) != 0 { perm_letter(i) } else { '-' })
}

/// Turns a Unix file mode into its permission characters, `rwxr-xr-x`,
/// without the leading file type.
pub fn perm_string(mode: u32) -> (r: String)
    ensures
        r@ == perm_text(mode),
{
    let mut out: Vec<char> = Vec::new();
    let mut i: u32 = 0;
    while i < 9
        invariant
            i <= 9,
            out@ == perm_text(mode).subrange(0, i as int),
        decreases 9 - i,
    {
        let bit: u32 = 256u32 >> i;
        let letter = if i % 3 == 0 {
            'r'
        } else if i % 3 == 1 {
            'w'
        } else {
            'x'
        };
        out.push(if mode & bit != 0 { letter } else { '-' });
        i += 1;
        assert(out@ =~= perm_text(mode).subrange(0, i as int));
    }
    assert(perm_text(mode).subrange(0, 9) =~= perm_text(mode));
    string_of(&out)
}

/// What an entry is, as far as its permission string shows.
#[derive(Clone, Copy, Debug, PartialEq, Eq, Structural)]
pub enum FileKind {
    Symlink,
    Dir,
    File,
}

pub open spec fn kind_char(kind: FileKind) -> char {
    match kind {
        FileKind::Symlink => 'l',
        FileKind::Dir => 'd',
        FileKind::File => '-',
    }
}

/// The permission string used when an entry's mode is not known.
pub open spec fn default_perm_text() -> Seq<char> {
    seq!['-', '-', '-', '-', '-', '-', '-', '-', '-', '-']
}

/// The ten characters of `ls -l`: the file type, then the permissions; ten
/// dashes when the mode is not known.
pub open spec fn full_perm_text(kind: FileKind, mode: Option<u32>) -> Seq<char> {
    match mode {
        Some(m) => seq![kind_char(kind)] + perm_text(m),
        None => default_perm_text(),
    }
}

/// Builds the ten-character permission string of an entry.
pub fn full_perm_string(kind: FileKind, mode: Option<u32>) -> (r: String)
    ensures
        r@ == full_perm_text(kind, mode),
        r@.len() == 10,
{
    match mode {
        Some(m) => {
            let mut out: Vec<char> = Vec::new();
            out.push(match kind {
                FileKind::Symlink => 'l',
                FileKind::Dir => 'd',
                FileKind::File => '-',
            });
            let p = perm_string(m);
            let pc = chars_of(p.as_str());
            let mut j: usize = 0;
            while j < pc.len()
                invariant
                    j <= pc@.len(),
                    out@ == seq![kind_char(kind)] + pc@.subrange(0, j as int),
                decreases pc@.len() - j,
            {
                out.push(pc[j]);
                j += 1;
                assert(out@ =~= seq![kind_char(kind)] + pc@.subrange(0, j as int));
            }
            assert(pc@.subrange(0, pc@.len() as int) =~= pc@);
            string_of(&out)
        },
        None => {
            let mut out: Vec<char> = Vec::new();
            let mut j: usize = 0;
            while j < 10
                invariant
                    j <= 10,
                    out@ == default_perm_text().subrange(0, j as int),
                decreases 10 - j,
            {
                out.push('-');
                j += 1;
                assert(out@ =~= default_perm_text().subrange(0, j as int));
            }
            assert(default_perm_text().subrange(0, 10) =~= default_perm_text());
            string_of(&out)
        },
    }
}

} // verus!
