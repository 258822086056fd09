//! Reading the contents of Linux `/proc/<pid>` files: the foreground process
//! group and the process group and command name in `stat`, and the argument
//! list in `cmdline`. The files themselves are read by the caller.
use vstd::prelude::*;
use vstd::utf8::{decode_utf8, valid_utf8};

use crate::platform::{ForegroundJob, ForegroundProcess};
use crate::text::{
    all_digits, all_digits_in, chars_of, find_in, first_index_of, last_index_of,
    parse_i32, parse_i32_in, parse_unsigned, parse_unsigned_in, rfind_in,
};

verus! {

// ---------------------------------------------------------------------------
// Whitespace-separated fields
// ---------------------------------------------------------------------------

/// A Unicode `White_Space` character, as `char::is_whitespace` tests.
pub open spec fn is_whitespace(c: char) -> bool {
    c == '\t' || c == '\n' || c == '\x0b' || c == '\x0c' || c == '\r' || c == ' ' || c
        == '\u{85}' || c == '\u{a0}' || c == '\u{1680}' || ('\u{2000}' <= c <= '\u{200a}') || c
        == '\u{2028}' || c == '\u{2029}' || c == '\u{202f}' || c == '\u{205f}' || c == '\u{3000}'
}

/// The first index at or after `i` that is not whitespace (or the end).
pub open spec fn skip_whitespace(s: Seq<char>, i: int) -> int
    decreases s.len() - i,
{
    if 0 <= i < s.len() && is_whitespace(s[i]) {
        skip_whitespace(s, i + 1)
    } else {
        i
    }
}

/// The first index at or after `i` that is whitespace (or the end).
pub open spec fn skip_word(s: Seq<char>, i: int) -> int
    decreases s.len() - i,
{
    if 0 <= i < s.len() && !is_whitespace(s[i]) {
        skip_word(s, i + 1)
    } else {
        i
    }
}

pub proof fn lemma_skips(s: Seq<char>, i: int)
    requires
        0 <= i <= s.len(),
    ensures
        i <= skip_whitespace(s, i) <= s.len(),
        i <= skip_word(s, i) <= s.len(),
        skip_whitespace(s, i) < s.len() ==> !is_whitespace(s[skip_whitespace(s, i)]),
        i < s.len() && !is_whitespace(s[i]) ==> skip_word(s, i) > i,
    decreases s.len() - i,
{
    if i < s.len() {
        lemma_skips(s, i + 1);
    }
}

/// Where the `k`-th (from 0) whitespace-separated field at or after `i`
/// starts and ends, as `str::split_whitespace` finds it.
pub open spec fn field_at(s: Seq<char>, i: int, k: nat) -> Option<(int, int)>
    decreases s.len() - i, k,
{
    if 0 <= i <= s.len() {
        let a = skip_whitespace(s, i);
        if a >= s.len() {
            None
        } else {
            let b = skip_word(s, a);
            if k == 0 {
                Some((a, b))
            } else {
                proof {
                    lemma_skips(s, i);
                    lemma_skips(s, a);
                }
                field_at(s, b, (k - 1) as nat)
            }
        }
    } else {
        None
    }
}

/// The `k`-th (from 0) whitespace-separated field of `s`.
pub open spec fn field(s: Seq<char>, k: nat) -> Option<Seq<char>> {
    match field_at(s, 0, k) {
        Some((a, b)) => Some(s.subrange(a, b)),
        None => None,
    }
}

/// Whether `c` is whitespace.
fn is_whitespace_char(c: char) -> (b: bool)
    ensures
        b == is_whitespace(c),
{
    let u = c as u32;
    u == 9 || u == 10 || u == 11 || u == 12 || u == 13 || u == 32 || u == 0x85 || u == 0xa0 || u
        == 0x1680 || (0x2000 <= u && u <= 0x200a) || u == 0x2028 || u == 0x2029 || u == 0x202f
        || u == 0x205f || u == 0x3000
}

/// Where the `k`-th whitespace-separated field of `v[lo..]` lies in `v`.
fn field_in(v: &Vec<char>, lo: usize, k: usize) -> (r: Option<(usize, usize)>)
    requires
        lo <= v.len(),
    ensures
        match r {
            Some((a, b)) => lo <= a <= b <= v.len() && field(v@.skip(lo as int), k as nat) == Some(
                v@.subrange(a as int, b as int),
            ),
            None => field(v@.skip(lo as int), k as nat) is None,
        },
{
    let ghost s = v@.skip(lo as int);
    let mut i = lo;
    let mut j: usize = 0;
    loop
        invariant
            lo <= i <= v.len(),
            j <= k,
            s == v@.skip(lo as int),
            field_at(s, 0, k as nat) == field_at(s, i - lo, (k - j) as nat),
        decreases v.len() - i, k - j,
    {
        let ghost i0 = i;
        let mut a = i;
        while a < v.len() && is_whitespace_char(v[a])
            invariant
                lo <= i0 <= a <= v.len(),
                s == v@.skip(lo as int),
                skip_whitespace(s, i0 - lo) == skip_whitespace(s, a - lo),
            decreases v.len() - a,
        {
            assert(s[a - lo] == v@[a as int]);
            a = a + 1;
        }
        proof {
            if a < v.len() {
                assert(s[a - lo] == v@[a as int]);
            }
        }
        if a >= v.len() {
            return None;
        }
        let mut b = a;
        while b < v.len() && !is_whitespace_char(v[b])
            invariant
                lo <= a <= b <= v.len(),
                s == v@.skip(lo as int),
                skip_word(s, a - lo) == skip_word(s, b - lo),
            decreases v.len() - b,
        {
            assert(s[b - lo] == v@[b as int]);
            b = b + 1;
        }
        proof {
            if b < v.len() {
                assert(s[b - lo] == v@[b as int]);
            }
            lemma_skips(s, i - lo);
            lemma_skips(s, a - lo);
        }
        if j == k {
            assert(s.subrange(a - lo, b - lo) =~= v@.subrange(a as int, b as int));
            return Some((a, b));
        }
        i = b;
        j = j + 1;
    }
}

// ---------------------------------------------------------------------------
// `stat`
// ---------------------------------------------------------------------------

/// The text after the command name of a `stat` line: what follows the last
/// `)` and the one character after it, when that character is a single byte
/// (the byte offset two past `)` must be a character boundary inside the text).
pub open spec fn stat_fields_text(s: Seq<char>) -> Option<Seq<char>> {
    match last_index_of(s, ')') {
        Some(c) => if c + 1 < s.len() && (s[c + 1] as u32) < 128 {
            Some(s.skip(c + 2))
        } else {
            None
        },
        None => None,
    }
}

/// The foreground process group of the terminal named in a `stat` line: the
/// sixth field after the command name, when it is a positive `i32`.
pub open spec fn stat_foreground_pgid(s: Seq<char>) -> Option<int> {
    match stat_fields_text(s) {
        Some(rest) => match field(rest, 5) {
            Some(f) => match parse_i32(f) {
                Some(t) => if t > 0 {
                    Some(t)
                } else {
                    None
                },
                None => None,
            },
            None => None,
        },
        None => None,
    }
}

/// The command name of a `stat` line: the text between the first `(` and the
/// last `)`.
pub open spec fn stat_comm(s: Seq<char>) -> Option<Seq<char>> {
    match last_index_of(s, ')') {
        Some(c) => match first_index_of(s, '(') {
            Some(o) => if o < c {
                Some(s.subrange(o + 1, c))
            } else {
                None
            },
            None => None,
        },
        None => None,
    }
}

/// The process group and command name of a `stat` line: the third field after
/// the command name, as an `i32`.
pub open spec fn stat_pgrp_and_comm(s: Seq<char>) -> Option<(int, Seq<char>)> {
    match stat_comm(s) {
        Some(comm) => match stat_fields_text(s) {
            Some(rest) => match field(rest, 2) {
                Some(f) => match parse_i32(f) {
                    Some(p) => Some((p, comm)),
                    None => None,
                },
                None => None,
            },
            None => None,
        },
        None => None,
    }
}

/// Where the fields after the command name start, if they can be read.
fn stat_fields_start(v: &Vec<char>) -> (r: Option<usize>)
    ensures
        match r {
            Some(i) => i <= v.len() && stat_fields_text(v@) == Some(v@.skip(i as int)),
            None => stat_fields_text(v@) is None,
        },
{
    assert(v@.subrange(0, v@.len() as int) =~= v@);
    let c = match rfind_in(v, 0, v.len(), ')') {
        Some(c) => c,
        None => {
            return None;
        },
    };
    if c + 1 < v.len() && (v[c + 1] as u32) < 128 {
        Some(c + 2)
    } else {
        None
    }
}

/// The foreground process group that a `/proc/<pid>/stat` line names.
pub fn foreground_pgid_from_stat(stat: &str) -> (r: Option<i32>)
    ensures
        match r {
            Some(t) => stat_foreground_pgid(stat@) == Some(t as int),
            None => stat_foreground_pgid(stat@) is None,
        },
{
    let v = chars_of(stat);
    let start = match stat_fields_start(&v) {
        Some(i) => i,
        None => {
            return None;
        },
    };
    let (a, b) = match field_in(&v, start, 5) {
        Some(f) => f,
        None => {
            return None;
        },
    };
    let tpgid = match parse_i32_in(&v, a, b) {
        Some(t) => t,
        None => {
            return None;
        },
    };
    if tpgid > 0 {
        Some(tpgid)
    } else {
        None
    }
}

/// The process group and command name that a `/proc/<pid>/stat` line names.
pub fn pgrp_and_comm_from_stat(stat: &str) -> (r: Option<(i32, String)>)
    ensures
        match r {
            Some((p, comm)) => stat_pgrp_and_comm(stat@) == Some((p as int, comm@)),
            None => stat_pgrp_and_comm(stat@) is None,
        },
{
    let v = chars_of(stat);
    assert(v@.subrange(0, v@.len() as int) =~= v@);
    let close = match rfind_in(&v, 0, v.len(), ')') {
        Some(c) => c,
        None => {
            return None;
        },
    };
    let open = match find_in(&v, 0, v.len(), '(') {
        Some(o) => o,
        None => {
            return None;
        },
    };
    if open >= close {
        return None;
    }
    let comm = string_from_chars(&v[open + 1..close]);
    let start = match stat_fields_start(&v) {
        Some(i) => i,
        None => {
            return None;
        },
    };
    let (a, b) = match field_in(&v, start, 2) {
        Some(f) => f,
        None => {
            return None;
        },
    };
    match parse_i32_in(&v, a, b) {
        Some(p) => Some((p, comm)),
        None => None,
    }
}

// ---------------------------------------------------------------------------
// `cmdline`
// ---------------------------------------------------------------------------

/// The first index at or after `i` that holds a zero byte (or the end).
pub open spec fn part_end(b: Seq<u8>, i: int) -> int
    decreases b.len() - i,
{
    if 0 <= i < b.len() && b[i] != 0 {
        part_end(b, i + 1)
    } else {
        i
    }
}

pub proof fn lemma_part_end(b: Seq<u8>, i: int)
    requires
        0 <= i <= b.len(),
    ensures
        i <= part_end(b, i) <= b.len(),
        i < b.len() && b[i] != 0 ==> part_end(b, i) > i,
    decreases b.len() - i,
{
    if i < b.len() {
        lemma_part_end(b, i + 1);
    }
}

/// The non-empty runs of non-zero bytes at or after `i`, in order.
pub open spec fn parts_from(b: Seq<u8>, i: int) -> Seq<Seq<u8>>
    decreases b.len() - i,
{
    if i < 0 || i >= b.len() {
        Seq::empty()
    } else if b[i] == 0 {
        parts_from(b, i + 1)
    } else {
        let e = part_end(b, i);
        proof {
            lemma_part_end(b, i);
        }
        seq![b.subrange(i, e)] + parts_from(b, e)
    }
}

/// What `String::from_utf8_lossy` makes of `bytes`.
pub uninterp spec fn utf8_lossy(bytes: Seq<u8>) -> Seq<char>;

/// `parts` joined with `sep` between neighbours.
pub open spec fn join(parts: Seq<Seq<char>>, sep: Seq<char>) -> Seq<char>
    decreases parts.len(),
{
    if parts.len() == 0 {
        Seq::empty()
    } else if parts.len() == 1 {
        parts[0]
    } else {
        join(parts.drop_last(), sep) + sep + parts.last()
    }
}

/// The command line of a `/proc/<pid>/cmdline` file: its NUL-separated
/// arguments, empty ones dropped, each read as lossy UTF-8, joined by spaces;
/// nothing when no argument is left.
pub open spec fn cmdline_text(bytes: Seq<u8>) -> Option<Seq<char>> {
    let parts = parts_from(bytes, 0);
    if parts.len() == 0 {
        None
    } else {
        Some(join(parts.map_values(|p: Seq<u8>| utf8_lossy(p)), seq![' ']))
    }
}

/// Calls `String::from_utf8_lossy`. Its documentation says that valid UTF-8
/// comes back unchanged; what it makes of invalid sequences (replacement
/// characters) is not stated here.
#[verifier::external_body]
fn from_utf8_lossy(bytes: &[u8]) -> (r: String)
    ensures
        r@ == utf8_lossy(bytes@),
        valid_utf8(bytes@) ==> r@ == decode_utf8(bytes@),
{
    String::from_utf8_lossy(bytes).into_owned()
}

/// Calls `String::from_iter` on characters, which collects them in order.
#[verifier::external_body]
fn string_from_chars(chars: &[char]) -> (r: String)
    ensures
        r@ == chars@,
{
    String::from_iter(chars)
}

/// The command line held in the bytes of a `/proc/<pid>/cmdline` file.
pub fn cmdline_from_bytes(bytes: &[u8]) -> (r: Option<String>)
    ensures
        match r {
            Some(s) => cmdline_text(bytes@) == Some(s@),
            None => cmdline_text(bytes@) is None,
        },
{
    let ghost b = bytes@;
    let ghost all = parts_from(b, 0);
    let mut out: Vec<char> = Vec::new();
    let mut count: usize = 0;
    let mut i: usize = 0;
    while i < bytes.len()
        invariant
            0 <= i <= bytes@.len(),
            b == bytes@,
            all == parts_from(b, 0),
            count <= all.len(),
            count <= i,
            all =~= all.take(count as int) + parts_from(b, i as int),
            out@ == join(all.take(count as int).map_values(|p: Seq<u8>| utf8_lossy(p)), seq![' ']),
        decreases bytes@.len() - i,
    {
        if bytes[i] == 0 {
            i = i + 1;
        } else {
            let start = i;
            while i < bytes.len() && bytes[i] != 0
                invariant
                    start <= i <= bytes@.len(),
                    b == bytes@,
                    part_end(b, start as int) == part_end(b, i as int),
                decreases bytes@.len() - i,
            {
                i = i + 1;
            }
            proof {
                lemma_part_end(b, start as int);
                assert(part_end(b, i as int) == i);
            }
            let part = from_utf8_lossy(&bytes[start..i]);
            let ghost before = out@;
            if count > 0 {
                out.push(' ');
            }
            let pc = chars_of(part.as_str());
            let mut k: usize = 0;
            while k < pc.len()
                invariant
                    0 <= k <= pc@.len(),
                    out@ == (if count > 0 { before + seq![' '] } else { before }) + pc@.take(
                        k as int,
                    ),
                decreases pc@.len() - k,
            {
                out.push(pc[k]);
                k = k + 1;
                assert(pc@.take(k as int) =~= pc@.take(k - 1).push(pc@[k - 1]));
            }
            proof {
                let p = b.subrange(start as int, i as int);
                let done = all.take(count as int);
                assert(parts_from(b, start as int) == seq![p] + parts_from(b, i as int));
                assert(all =~= done + (seq![p] + parts_from(b, i as int)));
                assert(all.len() >= count + 1);
                assert(all.take(count + 1) =~= done.push(p));
                assert(all =~= all.take(count + 1) + parts_from(b, i as int));
                let f = |q: Seq<u8>| utf8_lossy(q);
                assert(done.push(p).map_values(f) =~= done.map_values(f).push(utf8_lossy(p)));
                assert(pc@.take(pc@.len() as int) =~= pc@);
                if count > 0 {
                    assert(done.push(p).map_values(f).drop_last() =~= done.map_values(f));
                } else {
                    assert(done.push(p).map_values(f) =~= seq![utf8_lossy(p)]);
                }
            }
            count = count + 1;
        }
    }
    proof {
        assert(parts_from(b, i as int) =~= Seq::<Seq<u8>>::empty());
        assert(all =~= all.take(count as int));
    }
    if count == 0 {
        None
    } else {
        Some(string_from_chars(out.as_slice()))
    }
}

// ---------------------------------------------------------------------------
// Processes
// ---------------------------------------------------------------------------

/// The process id that a `/proc` entry name gives: a name of ASCII digits
/// parsed as a `u32`; other entries are not processes.
pub open spec fn entry_pid(name: Seq<char>) -> Option<nat> {
    if all_digits(name) {
        parse_unsigned(name, u32::MAX as nat)
    } else {
        None
    }
}

/// The process id of a `/proc` entry, if the entry is a process.
pub fn pid_from_entry_name(name: &str) -> (r: Option<u32>)
    ensures
        match r {
            Some(p) => entry_pid(name@) == Some(p as nat),
            None => entry_pid(name@) is None,
        },
{
    let v = chars_of(name);
    assert(v@.subrange(0, v@.len() as int) =~= v@);
    if !all_digits_in(&v, 0, v.len()) {
        return None;
    }
    parse_unsigned_in(&v, 0, v.len(), u32::MAX)
}

/// Whether a process whose group is `pgrp` belongs to the foreground group
/// `tpgid` (the group id compared as a `u32`).
pub fn in_foreground_group(pgrp: i32, tpgid: u32) -> (b: bool)
    ensures
        b == (pgrp as u32 == tpgid),
{
    pgrp as u32 == tpgid
}

/// The foreground job made of the processes found in group `tpgid`; none
/// when no process was found.
pub fn foreground_job_from(tpgid: u32, processes: Vec<ForegroundProcess>) -> (r: Option<
    ForegroundJob,
>)
    ensures
        match r {
            Some(job) => processes@.len() > 0 && job.process_group_id == tpgid && job.processes@
                == processes@,
            None => processes@.len() == 0,
        },
{
    if processes.len() == 0 {
        return None;
    }
    Some(ForegroundJob { process_group_id: tpgid, processes })
}

} // verus!
