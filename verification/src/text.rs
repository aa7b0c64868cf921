//! Small text helpers shared across the library.

use vstd::prelude::*;
use vstd::string::StrSliceExecFns;
use vstd::string::StringExecFns;

verus! {

/// Exact equality of two character sequences, decided at run time.
pub fn str_eq(a: &str, b: &str) -> (r: bool)
    ensures
        r == (a@ == b@),
{
    let ao = String::from_str(a);
    let bo = String::from_str(b);
    ao.eq(&bo)
}

/// The whitespace characters stripped from the ends of process names read
/// from the process table.
pub open spec fn is_ws(c: char) -> bool {
    c == ' ' || c == '\t' || c == '\n' || c == '\r'
}

pub open spec fn trim_front(s: Seq<char>) -> Seq<char>
    decreases s.len(),
{
    if s.len() > 0 && is_ws(s[0]) {
        trim_front(s.drop_first())
    } else {
        s
    }
}

pub open spec fn trim_back(s: Seq<char>) -> Seq<char>
    decreases s.len(),
{
    if s.len() > 0 && is_ws(s.last()) {
        trim_back(s.drop_last())
    } else {
        s
    }
}

/// `s` with leading and trailing whitespace removed.
pub open spec fn trim_ws(s: Seq<char>) -> Seq<char> {
    trim_back(trim_front(s))
}

fn is_ws_exec(c: char) -> (r: bool)
    ensures
        r == is_ws(c),
{
    c == ' ' || c == '\t' || c == '\n' || c == '\r'
}

/// Whether `s`, once trimmed of surrounding whitespace, reads exactly
/// `lit`.
pub fn trimmed_is(s: &str, lit: &str) -> (r: bool)
    ensures
        r == (trim_ws(s@) == lit@),
{
    let n = s.unicode_len();
    let mut a: usize = 0;
    proof {
        assert(s@.skip(0) =~= s@);
    }
    while a < n && is_ws_exec(s.get_char(a))
        invariant
            a <= n,
            n == s@.len(),
            trim_front(s@) == trim_front(s@.skip(a as int)),
        decreases n - a,
    {
        proof {
            assert(s@.skip(a as int).drop_first() =~= s@.skip(a + 1));
            assert(s@.skip(a as int)[0] == s@[a as int]);
        }
        a = a + 1;
    }
    proof {
        if a < n {
            assert(s@.skip(a as int)[0] == s@[a as int]);
            assert(trim_front(s@.skip(a as int)) == s@.skip(a as int));
        } else {
            assert(s@.skip(a as int) =~= Seq::<char>::empty());
        }
    }
    let mut b: usize = n;
    proof {
        assert(s@.subrange(a as int, b as int) =~= s@.skip(a as int));
    }
    while b > a && is_ws_exec(s.get_char(b - 1))
        invariant
            a <= b <= n,
            n == s@.len(),
            trim_front(s@) == s@.skip(a as int),
            trim_ws(s@) == trim_back(s@.subrange(a as int, b as int)),
        decreases b,
    {
        proof {
            assert(s@.subrange(a as int, b as int).drop_last() =~= s@.subrange(a as int, b - 1));
            assert(s@.subrange(a as int, b as int).last() == s@[b - 1]);
        }
        b = b - 1;
    }
    proof {
        if b > a {
            assert(s@.subrange(a as int, b as int).last() == s@[b - 1]);
        } else {
            assert(s@.subrange(a as int, b as int) =~= Seq::<char>::empty());
        }
        assert(trim_ws(s@) == s@.subrange(a as int, b as int));
    }
    let mid = s.substring_char(a, b);
    str_eq(mid, lit)
}

/// The largest index of a character other than `sep`, or -1 when there is
/// none.
pub open spec fn last_non_sep(s: Seq<char>, sep: char) -> int
    decreases s.len(),
{
    if s.len() == 0 {
        -1
    } else if s.last() != sep {
        s.len() - 1
    } else {
        last_non_sep(s.drop_last(), sep)
    }
}

/// The start of the `sep`-free run that ends at `j`.
pub open spec fn run_start(s: Seq<char>, sep: char, j: int) -> int
    decreases j,
{
    if j <= 0 {
        0
    } else if s[j - 1] == sep {
        j
    } else {
        run_start(s, sep, j - 1)
    }
}

/// The last nonempty `sep`-separated field of `s`, if any.
pub open spec fn last_nonempty_field(s: Seq<char>, sep: char) -> Option<Seq<char>> {
    let j = last_non_sep(s, sep);
    if j < 0 {
        None
    } else {
        Some(s.subrange(run_start(s, sep, j), j + 1))
    }
}

/// Extract the last nonempty `sep`-separated field of `s`.
pub fn last_field(s: &str, sep: char) -> (r: Option<String>)
    ensures
        r is Some <==> last_nonempty_field(s@, sep) is Some,
        r matches Some(f) ==> f@ == last_nonempty_field(s@, sep)->Some_0,
{
    let n = s.unicode_len();
    let mut j: usize = n;
    proof {
        assert(s@.take(n as int) =~= s@);
    }
    while j > 0 && s.get_char(j - 1) == sep
        invariant
            j <= n,
            n == s@.len(),
            last_non_sep(s@, sep) == last_non_sep(s@.take(j as int), sep),
        decreases j,
    {
        proof {
            assert(s@.take(j as int).drop_last() =~= s@.take(j - 1));
            assert(s@.take(j as int).last() == s@[j - 1]);
        }
        j = j - 1;
    }
    proof {
        if j > 0 {
            assert(s@.take(j as int).last() == s@[j - 1]);
        } else {
            assert(s@.take(0) =~= Seq::<char>::empty());
        }
    }
    if j == 0 {
        return None;
    }
    proof {
        assert(s@.take(j as int).last() == s@[j - 1]);
        assert(last_non_sep(s@, sep) == j - 1);
    }
    let mut i: usize = j;
    proof {
        // the run containing position j - 1 starts no later than j, since
        // s[j - 1] is no separator
        assert(run_start(s@, sep, j as int) == run_start(s@, sep, j - 1));
    }
    while i > 0 && s.get_char(i - 1) != sep
        invariant
            i <= j,
            0 < j <= n,
            n == s@.len(),
            run_start(s@, sep, j - 1) == run_start(s@, sep, i as int),
        decreases i,
    {
        proof {
            assert(run_start(s@, sep, i as int) == run_start(s@, sep, i - 1));
        }
        i = i - 1;
    }
    proof {
        assert(run_start(s@, sep, j - 1) == i);
    }
    let f = s.substring_char(i, j);
    Some(f.to_owned())
}

} // verus!
