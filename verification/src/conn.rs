//! Parsing a database locator of the shape `user:pass@host:port~database`.
//!
//! The user ends at the first colon, the password at the last `@` that
//! still has a `~` after it (so passwords may contain `@`), the host and
//! port at the first `~` after that, and the database at the next `~` or
//! the end.  A missing or unreadable port falls back to 3306.

use vstd::prelude::*;

use crate::text::chars_of;

verus! {

/// Position of the first `c` at or after `i`, or the length.
pub open spec fn find_char(s: Seq<char>, i: int, c: char) -> int
    decreases s.len() - i when 0 <= i <= s.len()
{
    if i < s.len() && s[i] != c {
        find_char(s, i + 1, c)
    } else {
        i
    }
}

/// Position of the last `c` in `s[lo..hi]`, if any.
pub open spec fn rfind_char(s: Seq<char>, lo: int, hi: int, c: char) -> Option<int>
    decreases hi - lo when lo <= hi
{
    if hi <= lo {
        None
    } else if s[hi - 1] == c {
        Some(hi - 1)
    } else {
        rfind_char(s, lo, hi - 1, c)
    }
}

/// Whether `c` is an ASCII decimal digit.
pub open spec fn is_digit(c: char) -> bool {
    '0' <= c && c <= '9'
}

/// The number a digit string denotes.
pub open spec fn digits_val(t: Seq<char>) -> int
    decreases t.len(),
{
    if t.len() == 0 {
        0
    } else {
        digits_val(t.drop_last()) * 10 + (t.last() as int - '0' as int)
    }
}

/// The port a text denotes: a nonempty all-digit string whose value fits
/// sixteen bits, or nothing.
pub open spec fn spec_parse_port(t: Seq<char>) -> Option<u16> {
    if t.len() > 0 && (forall|j: int| 0 <= j < t.len() ==> is_digit(#[trigger] t[j]))
        && digits_val(t) <= 65535 {
        Some(digits_val(t) as u16)
    } else {
        None
    }
}

/// The four raw fields of a locator: user, password, host-and-port,
/// database.
pub open spec fn conn_parse(s: Seq<char>) -> Option<(Seq<char>, Seq<char>, Seq<char>, Seq<char>)> {
    let c0 = find_char(s, 0, ':');
    if c0 >= s.len() {
        None
    } else {
        match rfind_char(s, 0, s.len() as int, '~') {
            None => None,
            Some(tl) => {
                if tl < c0 + 1 {
                    None
                } else {
                    match rfind_char(s, c0 + 1, tl, '@') {
                    None => None,
                    Some(a) => {
                        let t1 = find_char(s, a + 1, '~');
                        let t2 = find_char(s, t1 + 1, '~');
                        Some(
                            (
                                s.subrange(0, c0),
                                s.subrange(c0 + 1, a),
                                s.subrange(a + 1, t1),
                                s.subrange(t1 + 1, t2),
                            ),
                        )
                    },
                    }
                }
            },
        }
    }
}

/// The host part of `host:port` text: up to the first colon.
pub open spec fn spec_host_of(hp: Seq<char>) -> Seq<char> {
    hp.subrange(0, find_char(hp, 0, ':'))
}

/// The port part: between the first and second colon, read as a number,
/// 3306 when absent or unreadable.
pub open spec fn spec_port_of(hp: Seq<char>) -> u16 {
    let c1 = find_char(hp, 0, ':');
    if c1 >= hp.len() {
        3306
    } else {
        let c2 = find_char(hp, c1 + 1, ':');
        match spec_parse_port(hp.subrange(c1 + 1, c2)) {
            Some(p) => p,
            None => 3306,
        }
    }
}

/// The resolved pieces of a database locator.
pub struct ConnSpec {
    pub user: String,
    pub pass: String,
    pub host: String,
    pub port: u16,
    pub db: String,
}

proof fn lemma_find_char(s: Seq<char>, i: int, c: char)
    requires
        0 <= i <= s.len(),
    ensures
        i <= find_char(s, i, c) <= s.len(),
    decreases s.len() - i,
{
    if i < s.len() && s[i] != c {
        lemma_find_char(s, i + 1, c);
    }
}

/// The first occurrence from `i` comes no later than any occurrence.
proof fn lemma_find_char_le(s: Seq<char>, i: int, j: int, c: char)
    requires
        0 <= i <= j < s.len(),
        s[j] == c,
    ensures
        find_char(s, i, c) <= j,
    decreases j - i,
{
    if i < j && s[i] != c {
        lemma_find_char_le(s, i + 1, j, c);
    }
}

/// A successful backward search lands on the character.
proof fn lemma_rfind_char(s: Seq<char>, lo: int, hi: int, c: char)
    requires
        0 <= lo <= hi <= s.len(),
    ensures
        match rfind_char(s, lo, hi, c) {
            Some(q) => lo <= q < hi && s[q] == c,
            None => true,
        },
    decreases hi - lo,
{
    if hi > lo && s[hi - 1] != c {
        lemma_rfind_char(s, lo, hi - 1, c);
    }
}

fn exec_find_char(v: &Vec<char>, i: usize, c: char) -> (r: usize)
    requires
        i <= v@.len(),
    ensures
        r == find_char(v@, i as int, c),
        i <= r <= v@.len(),
{
    let mut j = i;
    while j < v.len() && v[j] != c
        invariant
            i <= j <= v@.len(),
            find_char(v@, i as int, c) == find_char(v@, j as int, c),
        decreases v@.len() - j,
    {
        j = j + 1;
    }
    j
}

fn exec_rfind_char(v: &Vec<char>, lo: usize, hi: usize, c: char) -> (r: Option<usize>)
    requires
        lo <= hi <= v@.len(),
    ensures
        match r {
            Some(q) => rfind_char(v@, lo as int, hi as int, c) == Some(q as int) && lo <= q < hi,
            None => rfind_char(v@, lo as int, hi as int, c) is None,
        },
{
    let mut h = hi;
    while h > lo
        invariant
            lo <= h <= hi <= v@.len(),
            rfind_char(v@, lo as int, hi as int, c) == rfind_char(v@, lo as int, h as int, c),
        decreases h,
    {
        if v[h - 1] == c {
            return Some(h - 1);
        }
        h = h - 1;
    }
    None
}

proof fn lemma_digits_val_grows(t: Seq<char>, i: int)
    requires
        0 <= i <= t.len(),
        forall|j: int| 0 <= j < t.len() ==> is_digit(#[trigger] t[j]),
        digits_val(t.take(i)) >= 0,
    ensures
        digits_val(t) >= digits_val(t.take(i)),
        digits_val(t) >= 0,
    decreases t.len() - i,
{
    if i == t.len() {
        assert(t.take(i) =~= t);
    } else {
        assert(t.take(i + 1).drop_last() =~= t.take(i));
        assert(t.take(i + 1).last() == t[i]);
        assert(digits_val(t.take(i + 1)) == digits_val(t.take(i)) * 10 + (t[i] as int
            - '0' as int));
        assert(digits_val(t.take(i + 1)) >= digits_val(t.take(i)));
        lemma_digits_val_grows(t, i + 1);
    }
}

/// Read a port number: all digits, nonempty, within sixteen bits;
/// anything else is nothing.
fn parse_port(v: &Vec<char>, lo: usize, hi: usize) -> (r: Option<u16>)
    requires
        lo <= hi <= v@.len(),
    ensures
        r == spec_parse_port(v@.subrange(lo as int, hi as int)),
{
    let ghost t = v@.subrange(lo as int, hi as int);
    if lo == hi {
        return None;
    }
    let mut val: u32 = 0;
    let mut j = lo;
    proof {
        assert(t.take(0) =~= Seq::<char>::empty());
    }
    while j < hi
        invariant
            lo <= j <= hi <= v@.len(),
            t == v@.subrange(lo as int, hi as int),
            forall|k: int| 0 <= k < j - lo ==> is_digit(#[trigger] t[k]),
            val == digits_val(t.take(j - lo)),
            val <= 65535,
        decreases hi - j,
    {
        let c = v[j];
        if !('0' <= c && c <= '9') {
            proof {
                assert(t[j - lo] == c);
                assert(!is_digit(t[j - lo]));
            }
            return None;
        }
        let d: u32 = (c as u32) - 48;
        proof {
            assert(t.take(j - lo + 1).drop_last() =~= t.take(j - lo));
            assert(t.take(j - lo + 1).last() == t[j - lo]);
            assert(t[j - lo] == c);
            assert(d == c as int - '0' as int);
        }
        let next: u32 = val * 10 + d;
        if next > 65535 {
            proof {
                assert(digits_val(t.take(j - lo + 1)) == next);
                if forall|k: int| 0 <= k < t.len() ==> is_digit(#[trigger] t[k]) {
                    lemma_digits_val_grows(t, j - lo + 1);
                    assert(digits_val(t) > 65535);
                }
            }
            return None;
        }
        val = next;
        j = j + 1;
    }
    proof {
        assert(t.take(hi - lo) =~= t);
        assert(t.len() > 0);
        assert(forall|k: int| 0 <= k < t.len() ==> is_digit(#[trigger] t[k]));
        assert(digits_val(t) == val <= 65535);
    }
    Some(val as u16)
}

/// Parse a database locator into its resolved pieces; `None` exactly when
/// the text lacks the colon, the `~`, or the `@` the shape calls for.
pub fn parse_conn_str(s: &str) -> (r: Option<ConnSpec>)
    ensures
        match r {
            Some(c) => conn_parse(s@) matches Some(f) && c.user@ == f.0 && c.pass@ == f.1
                && c.host@ == spec_host_of(f.2) && c.port == spec_port_of(f.2) && c.db@ == f.3,
            None => conn_parse(s@) is None,
        },
{
    let v = chars_of(s);
    let n = v.len();
    let c0 = exec_find_char(&v, 0, ':');
    if c0 >= n {
        return None;
    }
    proof {
        lemma_rfind_char(v@, 0, n as int, '~');
    }
    let tl = match exec_rfind_char(&v, 0, n, '~') {
        Some(tl) => tl,
        None => {
            return None;
        },
    };
    if tl < c0 + 1 {
        return None;
    }
    let a = match exec_rfind_char(&v, c0 + 1, tl, '@') {
        Some(a) => a,
        None => {
            return None;
        },
    };
    let t1 = exec_find_char(&v, a + 1, '~');
    proof {
        lemma_find_char_le(v@, a as int + 1, tl as int, '~');
        assert(t1 <= tl < n);
    }
    let t2 = exec_find_char(&v, t1 + 1, '~');
    let user = String::from_str(s.substring_char(0, c0));
    let pass = String::from_str(s.substring_char(c0 + 1, a));
    let db = String::from_str(s.substring_char(t1 + 1, t2));

    // Split host and port inside the host-and-port field.
    let hp_str = s.substring_char(a + 1, t1);
    let hpv = chars_of(hp_str);
    let m = hpv.len();
    let h1 = exec_find_char(&hpv, 0, ':');
    let host = String::from_str(hp_str.substring_char(0, h1));
    let port: u16 = if h1 < m {
        let h2 = exec_find_char(&hpv, h1 + 1, ':');
        match parse_port(&hpv, h1 + 1, h2) {
            Some(p) => p,
            None => 3306,
        }
    } else {
        3306
    };
    Some(ConnSpec { user, pass, host, port, db })
}

} // verus!
