//! Running the server: the file that records the server's process id, the
//! text of process ids written there and read back, and the address it listens on.

use vstd::prelude::*;
use vstd::string::StringExecFns;
use crate::text::{chars_of, string_of_range, push_char, trim, spec_trim, is_white_space, is_trim_start, is_trim_end, all_white};
use crate::path::{spec_join_text, join_text};
use crate::config::{config_dir, app_dir_suffix};
use crate::text::spec_ends_with;

verus! {

/// The port of the control connection.
pub const FTP_PORT: u16 = 2121;

/// The first port of the range for passive data connections.
pub const PASSIVE_PORT_FIRST: u16 = 50000;

/// The last port of the range for passive data connections.
pub const PASSIVE_PORT_LAST: u16 = 50100;

pub open spec fn is_digit(c: char) -> bool {
    48 <= (c as u32) <= 57
}

pub open spec fn digit_value(c: char) -> int {
    (c as u32) - 48
}

pub open spec fn all_digits(s: Seq<char>) -> bool {
    forall|i: int| 0 <= i < s.len() ==> is_digit(#[trigger] s[i])
}

/// The number that the decimal digits `s` write.
pub open spec fn digits_value(s: Seq<char>) -> int
    decreases s.len(),
{
    if s.len() == 0 {
        0
    } else {
        digits_value(s.drop_last()) * 10 + digit_value(s.last())
    }
}

/// The integer that `t` writes as `i32::from_str` reads it: an optional `+`
/// or `-`, then one or more decimal digits, and a value that fits in an `i32`.
pub open spec fn spec_parse_i32(t: Seq<char>) -> Option<int> {
    let neg = t.len() > 0 && t[0] == '-';
    let signed = t.len() > 0 && (t[0] == '-' || t[0] == '+');
    let body = if signed {
        t.skip(1)
    } else {
        t
    };
    if body.len() == 0 || !all_digits(body) {
        None
    } else {
        let v = if neg {
            -digits_value(body)
        } else {
            digits_value(body)
        };
        if i32::MIN <= v <= i32::MAX {
            Some(v)
        } else {
            None
        }
    }
}

/// The process id that the text `s` of a pid file gives: `s` trimmed of white
/// space, read as an `i32`.
pub open spec fn spec_parse_pid(s: Seq<char>) -> Option<int> {
    spec_parse_i32(spec_trim(s))
}

pub open spec fn digit_char(d: int) -> char {
    if d == 0 {
        '0'
    } else if d == 1 {
        '1'
    } else if d == 2 {
        '2'
    } else if d == 3 {
        '3'
    } else if d == 4 {
        '4'
    } else if d == 5 {
        '5'
    } else if d == 6 {
        '6'
    } else if d == 7 {
        '7'
    } else if d == 8 {
        '8'
    } else {
        '9'
    }
}

/// The decimal digits of `n`, without leading zeros.
pub open spec fn decimal(n: nat) -> Seq<char>
    decreases n,
{
    if n < 10 {
        seq![digit_char(n as int)]
    } else {
        decimal(n / 10).push(digit_char((n % 10) as int))
    }
}

/// The text of the integer `x`: its decimal digits, after a `-` if it is negative.
pub open spec fn signed_decimal(x: int) -> Seq<char> {
    if x < 0 {
        seq!['-'] + decimal((-x) as nat)
    } else {
        decimal(x as nat)
    }
}

fn digit_of(d: u64) -> (c: char)
    requires
        d < 10,
    ensures
        c == digit_char(d as int),
{
    if d == 0 {
        '0'
    } else if d == 1 {
        '1'
    } else if d == 2 {
        '2'
    } else if d == 3 {
        '3'
    } else if d == 4 {
        '4'
    } else if d == 5 {
        '5'
    } else if d == 6 {
        '6'
    } else if d == 7 {
        '7'
    } else if d == 8 {
        '8'
    } else {
        '9'
    }
}

/// The decimal digits of `n`.
fn decimal_chars(n: u64) -> (v: Vec<char>)
    ensures
        v@ == decimal(n as nat),
{
    let mut m = n;
    let mut suffix: Vec<char> = Vec::new();
    while m >= 10
        invariant
            decimal(n as nat) == decimal(m as nat) + suffix@,
        decreases m,
    {
        let d = digit_of(m % 10);
        assert(decimal(m as nat) == decimal((m / 10) as nat).push(digit_char((m % 10) as int)));
        suffix.insert(0, d);
        assert(decimal((m / 10) as nat) + suffix@ =~= decimal((m / 10) as nat).push(
            digit_char((m % 10) as int),
        ) + suffix@.drop_first());
        m = m / 10;
    }
    let mut v: Vec<char> = Vec::new();
    v.push(digit_of(m));
    let mut i: usize = 0;
    while i < suffix.len()
        invariant
            i <= suffix@.len(),
            v@ == decimal(m as nat) + suffix@.take(i as int),
        decreases suffix@.len() - i,
    {
        v.push(suffix[i]);
        assert(decimal(m as nat) + suffix@.take(i + 1) =~= (decimal(m as nat) + suffix@.take(
            i as int,
        )).push(suffix@[i as int]));
        i = i + 1;
    }
    assert(suffix@.take(suffix@.len() as int) =~= suffix@);
    v
}

/// The text of a process id, as it is written to the pid file.
pub fn pid_text(pid: u32) -> (s: String)
    ensures
        s@ == decimal(pid as nat),
{
    let v = decimal_chars(pid as u64);
    string_of_range(&v, 0, v.len())
}

/// The text of an integer, as it is given to `kill` and shown.
pub fn int_text(x: i32) -> (s: String)
    ensures
        s@ == signed_decimal(x as int),
{
    if x < 0 {
        let m: u64 = if x == i32::MIN {
            2147483648
        } else {
            (-x) as u64
        };
        let v = decimal_chars(m);
        let mut s = String::new();
        push_char(&mut s, '-');
        let t = string_of_range(&v, 0, v.len());
        s.append(t.as_str());
        assert(s@ =~= signed_decimal(x as int));
        s
    } else {
        let v = decimal_chars(x as u64);
        string_of_range(&v, 0, v.len())
    }
}

/// The value of `d`, a decimal digit.
fn value_of_digit(c: char) -> (r: Option<u64>)
    ensures
        match r {
            Some(d) => is_digit(c) && d == digit_value(c),
            None => !is_digit(c),
        },
{
    let x = c as u32;
    if 48 <= x && x <= 57 {
        Some((x - 48) as u64)
    } else {
        None
    }
}

proof fn lemma_digits_value_nonneg(s: Seq<char>)
    requires
        all_digits(s),
    ensures
        digits_value(s) >= 0,
    decreases s.len(),
{
    if s.len() > 0 {
        assert(all_digits(s.drop_last())) by {
            assert forall|i: int| 0 <= i < s.drop_last().len() implies is_digit(#[trigger] s.drop_last()[i]) by {
                assert(s.drop_last()[i] == s[i]);
            }
        }
        lemma_digits_value_nonneg(s.drop_last());
        assert(is_digit(s[s.len() - 1]));
    }
}

/// The number above which no digits are read: larger than any `i32` magnitude.
const CAP: u64 = 2147483649;

/// The process id written in the text of a pid file, if it is one.
pub fn parse_pid(s: &str) -> (r: Option<i32>)
    ensures
        match r {
            Some(p) => spec_parse_pid(s@) == Some(p as int),
            None => spec_parse_pid(s@) is None,
        },
{
    let t = trim(s);
    let v = chars_of(t.as_str());
    let n = v.len();
    let neg = n > 0 && v[0] == '-';
    let signed = n > 0 && (v[0] == '-' || v[0] == '+');
    let start: usize = if signed {
        1
    } else {
        0
    };
    let ghost body = if signed {
        v@.skip(1)
    } else {
        v@
    };
    assert(body =~= v@.skip(start as int));
    if start == n {
        return None;
    }
    let mut acc: u64 = 0;
    let mut k: usize = start;
    while k < n
        invariant
            start <= k <= n,
            n == v@.len(),
            v@ == spec_trim(s@),
            body == (if v@.len() > 0 && (v@[0] == '-' || v@[0] == '+') {
                v@.skip(1)
            } else {
                v@
            }),
            body == v@.skip(start as int),
            all_digits(body.take(k - start)),
            digits_value(body.take(k - start)) >= 0,
            acc == (if digits_value(body.take(k - start)) >= CAP {
                CAP as int
            } else {
                digits_value(body.take(k - start))
            }),
        decreases n - k,
    {
        let ghost pre = body.take(k - start);
        let ghost next = body.take(k - start + 1);
        assert(next.drop_last() =~= pre);
        assert(next.last() == v@[k as int]);
        match value_of_digit(v[k]) {
            None => {
                assert(!all_digits(body)) by {
                    assert(body[k - start] == v@[k as int]);
                }
                return None;
            },
            Some(d) => {
                assert(digits_value(next) == digits_value(pre) * 10 + d);
                assert(all_digits(next)) by {
                    assert forall|i: int| 0 <= i < next.len() implies is_digit(#[trigger] next[i]) by {
                        if i < pre.len() {
                            assert(next[i] == pre[i]);
                        }
                    }
                }
                if acc >= CAP {
                    acc = CAP;
                } else {
                    let x = acc * 10 + d;
                    acc = if x >= CAP {
                        CAP
                    } else {
                        x
                    };
                }
            },
        }
        k = k + 1;
    }
    assert(body.take(n - start) =~= body);
    if neg {
        if acc > 2147483648 {
            None
        } else if acc == 2147483648 {
            Some(i32::MIN)
        } else {
            Some(-(acc as i32))
        }
    } else {
        if acc > 2147483647 {
            None
        } else {
            Some(acc as i32)
        }
    }
}

proof fn lemma_digit_char(d: int)
    requires
        0 <= d < 10,
    ensures
        is_digit(digit_char(d)),
        digit_value(digit_char(d)) == d,
{
    assert(('0' as u32) == 48);
    assert(('9' as u32) == 57);
}

proof fn lemma_decimal_digits(n: nat)
    ensures
        decimal(n).len() > 0,
        all_digits(decimal(n)),
        digits_value(decimal(n)) == n,
    decreases n,
{
    lemma_digit_char((n % 10) as int);
    if n < 10 {
        assert(n % 10 == n);
        assert(decimal(n).drop_last() =~= Seq::<char>::empty());
        assert(digits_value(decimal(n)) == digits_value(Seq::<char>::empty()) * 10 + digit_value(
            digit_char(n as int),
        ));
    }
    if n >= 10 {
        lemma_decimal_digits(n / 10);
        let s = decimal(n);
        assert(s.drop_last() =~= decimal(n / 10));
        assert(all_digits(s)) by {
            assert forall|i: int| 0 <= i < s.len() implies is_digit(#[trigger] s[i]) by {
                if i < s.len() - 1 {
                    assert(s[i] == decimal(n / 10)[i]);
                }
            }
        }
        assert(s.last() == digit_char((n % 10) as int));
        assert(digits_value(s) == digits_value(decimal(n / 10)) * 10 + digit_value(s.last()));
        assert(n == (n / 10) * 10 + n % 10);
    }
}

proof fn lemma_digits_not_white(s: Seq<char>)
    requires
        s.len() > 0,
        all_digits(s),
    ensures
        spec_trim(s) == s,
{
    assert(!is_white_space(s[0]));
    assert(!all_white(s));
    assert(is_trim_start(s, 0));
    assert(is_trim_end(s, s.len() as int)) by {
        assert(is_digit(s[s.len() - 1]));
    }
    let lo = choose|lo: int| is_trim_start(s, lo);
    let hi = choose|hi: int| is_trim_end(s, hi);
    assert(lo == 0) by {
        if lo > 0 {
            assert(is_white_space(s[0]));
        }
    }
    assert(hi == s.len()) by {
        if hi < s.len() {
            assert(is_white_space(s[s.len() - 1]));
        }
    }
    assert(s.subrange(0, s.len() as int) =~= s);
}

/// What is read back from a pid file is the integer that was written to it:
/// the text of any `i32` reads as that `i32`.
pub proof fn law_int_text_reads_back(x: int)
    requires
        i32::MIN <= x <= i32::MAX,
    ensures
        spec_parse_pid(signed_decimal(x)) == Some(x),
{
    if x < 0 {
        let d = decimal((-x) as nat);
        lemma_decimal_digits((-x) as nat);
        let t = seq!['-'] + d;
        assert(t.len() > 0);
        assert(!is_white_space(t[0]));
        assert(is_trim_start(t, 0));
        assert(t[t.len() - 1] == d[d.len() - 1]);
        assert(is_digit(d[d.len() - 1]));
        assert(is_trim_end(t, t.len() as int));
        let lo = choose|lo: int| is_trim_start(t, lo);
        let hi = choose|hi: int| is_trim_end(t, hi);
        assert(lo == 0) by {
            if lo > 0 {
                assert(is_white_space(t[0]));
            }
        }
        assert(hi == t.len()) by {
            if hi < t.len() {
                assert(is_white_space(t[t.len() - 1]));
            }
        }
        assert(!all_white(t));
        assert(t.subrange(0, t.len() as int) =~= t);
        assert(t.skip(1) =~= d);
    } else {
        let d = decimal(x as nat);
        lemma_decimal_digits(x as nat);
        lemma_digits_not_white(d);
        assert(is_digit(d[0]));
    }
}

/// What is read back from a pid file is the process id that was written to
/// it, for every process id that fits in an `i32`.
pub proof fn law_pid_text_reads_back(pid: nat)
    requires
        pid <= i32::MAX,
    ensures
        spec_parse_pid(decimal(pid)) == Some(pid as int),
{
    law_int_text_reads_back(pid as int);
}

/// The address the server listens on: the host's address and the FTP port.
pub fn listen_address(ip: &str) -> (s: String)
    ensures
        s@ == ip@ + seq![':'] + decimal(FTP_PORT as nat),
{
    let mut s = String::from_str(ip);
    push_char(&mut s, ':');
    let p = pid_text(FTP_PORT as u32);
    s.append(p.as_str());
    s
}

/// Where the pid file is, given the configuration directory.
pub fn pid_path_in(dir: &str) -> (p: String)
    ensures
        p@ == spec_join_text(dir@, "rootftp.pid"@),
{
    join_text(dir, "rootftp.pid")
}

/// Where the pid file is, if there is a configuration directory.
pub fn pid_path() -> (r: Option<String>)
    ensures
        r matches Some(p) ==> exists|d: Seq<char>|
            spec_ends_with(d, app_dir_suffix()) && p@ == spec_join_text(d, "rootftp.pid"@),
{
    match config_dir() {
        Some(d) => {
            let p = pid_path_in(d.as_str());
            Some(p)
        },
        None => None,
    }
}

/// Where the index of the plugin library is kept, given the configuration directory.
pub fn plugin_index_path_in(dir: &str) -> (p: String)
    ensures
        p@ == spec_join_text(dir@, "plugins.json"@),
{
    join_text(dir, "plugins.json")
}

} // verus!
