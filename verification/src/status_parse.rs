//! Structured matching of the supervisor's status output.
//!
//! The status command prints one loosely structured line per service:
//!
//! ```text
//! <word>: <name>: (pid <N>) <U>s; <word2>: <name2>: (pid <N2>) <U2>s
//! ```
//!
//! where the `(pid <N>)` group and the whole trailing clause for the
//! companion log process are optional.  The match may start anywhere in the
//! text and leaves trailing text alone; the earliest position where the
//! whole shape fits wins.  Every capture is independently optional: a
//! missing group degrades that one field to absent and never fails the
//! whole match.
//!
//! The service name is matched as a literal, never interpreted: names are
//! user-supplied path segments and carry no pattern syntax here.

use vstd::prelude::*;
use vstd::string::StrSliceExecFns;

verus! {

pub open spec fn is_digit(c: char) -> bool {
    48 <= (c as u32) && (c as u32) <= 57
}

/// The end of the maximal colon-free run starting at `i`.
pub open spec fn run_end_nc(s: Seq<char>, i: int) -> int
    decreases s.len() - i,
    when 0 <= i <= s.len()
{
    if i < s.len() && s[i] != ':' {
        run_end_nc(s, i + 1)
    } else {
        i
    }
}

/// The end of the maximal digit run starting at `i`.
pub open spec fn run_end_digits(s: Seq<char>, i: int) -> int
    decreases s.len() - i,
    when 0 <= i <= s.len()
{
    if i < s.len() && is_digit(s[i]) {
        run_end_digits(s, i + 1)
    } else {
        i
    }
}

/// Whether `lit` occurs in `s` at position `i`.
pub open spec fn starts_with(s: Seq<char>, i: int, lit: Seq<char>) -> bool {
    i + lit.len() <= s.len() && s.subrange(i, i + lit.len()) == lit
}

/// The value of a digit run, most significant digit first.
pub open spec fn digits_val(d: Seq<char>) -> int
    decreases d.len(),
{
    if d.len() == 0 {
        0
    } else {
        digits_val(d.drop_last()) * 10 + ((d.last() as u32) - 48)
    }
}

/// A captured digit run as a pid, absent when it does not fit.
pub open spec fn num32(d: Seq<char>) -> Option<u32> {
    if 0 <= digits_val(d) <= u32::MAX {
        Some(digits_val(d) as u32)
    } else {
        None
    }
}

/// A captured digit run as an uptime, absent when it does not fit.
pub open spec fn num64(d: Seq<char>) -> Option<u64> {
    if 0 <= digits_val(d) <= u64::MAX {
        Some(digits_val(d) as u64)
    } else {
        None
    }
}

pub open spec fn opt_num32(d: Option<Seq<char>>) -> Option<u32> {
    match d {
        Some(x) => num32(x),
        None => None,
    }
}

/// The optional ` (pid <digits>)` group at `i`: the capture and the
/// position after the group, or no capture and `i` unchanged when the
/// group's shape is not there.
pub open spec fn match_pid(s: Seq<char>, i: int) -> (Option<Seq<char>>, int) {
    if starts_with(s, i, " (pid "@) {
        let ds = i + 6;
        let de = run_end_digits(s, ds);
        if de > ds && de < s.len() && s[de] == ')' {
            (Some(s.subrange(ds, de)), de + 1)
        } else {
            (None, i)
        }
    } else {
        (None, i)
    }
}

/// The mandatory ` <digits>s` uptime group at `i`: the capture and the
/// position after it.
pub open spec fn match_uptime(s: Seq<char>, i: int) -> Option<(Seq<char>, int)> {
    if i < s.len() && s[i] == ' ' {
        let ds = i + 1;
        let de = run_end_digits(s, ds);
        if de > ds && de < s.len() && s[de] == 's' {
            Some((s.subrange(ds, de), de + 1))
        } else {
            None
        }
    } else {
        None
    }
}

/// The tail both clauses share: optional pid group, then the uptime.
pub open spec fn match_tail(s: Seq<char>, i: int) -> Option<(Option<Seq<char>>, Seq<char>, int)> {
    let (pid, j) = match_pid(s, i);
    match match_uptime(s, j) {
        Some((u, e)) => Some((pid, u, e)),
        None => None,
    }
}

/// The main clause at `i`: a nonempty colon-free status word, then
/// `: <name>:` with the name matched literally, then the shared tail.
/// Yields the status word, the pid capture, the uptime capture and the
/// position after the clause.
pub open spec fn match_main(s: Seq<char>, name: Seq<char>, i: int) -> Option<
    (Seq<char>, Option<Seq<char>>, Seq<char>, int),
> {
    let we = run_end_nc(s, i);
    if we > i && starts_with(s, we, ": "@) && starts_with(s, we + 2, name) && starts_with(
        s,
        we + 2 + name.len(),
        ":"@,
    ) {
        match match_tail(s, we + 2 + name.len() + 1) {
            Some((pid, u, e)) => Some((s.subrange(i, we), pid, u, e)),
            None => None,
        }
    } else {
        None
    }
}

/// The optional log clause at `i`: `; <word>: <name>:` with both the word
/// and the name captured as colon-free runs, then the shared tail.
pub open spec fn match_log(s: Seq<char>, i: int) -> Option<
    (Seq<char>, Seq<char>, Option<Seq<char>>, Seq<char>),
> {
    if starts_with(s, i, "; "@) {
        let ws = i + 2;
        let we = run_end_nc(s, ws);
        if we > ws && starts_with(s, we, ": "@) {
            let ns = we + 2;
            let ne = run_end_nc(s, ns);
            if ne > ns && ne < s.len() && s[ne] == ':' {
                match match_tail(s, ne + 1) {
                    Some((pid, u, _)) => Some((s.subrange(ws, we), s.subrange(ns, ne), pid, u)),
                    None => None,
                }
            } else {
                None
            }
        } else {
            None
        }
    } else {
        None
    }
}

/// Captures of the log clause.
pub struct LogCapture {
    pub word: Seq<char>,
    pub name: Seq<char>,
    pub pid: Option<Seq<char>>,
    pub uptime: Seq<char>,
}

/// Captures of one whole match.
pub struct StatusCapture {
    pub word: Seq<char>,
    pub pid: Option<Seq<char>>,
    pub uptime: Seq<char>,
    pub log: Option<LogCapture>,
}

/// The whole pattern anchored at `i`: the main clause, then the log clause
/// where its shape follows; a log clause that does not fit leaves only
/// that capture absent.
pub open spec fn match_at(s: Seq<char>, name: Seq<char>, i: int) -> Option<StatusCapture> {
    match match_main(s, name, i) {
        Some((w, pid, u, e)) => Some(
            StatusCapture {
                word: w,
                pid,
                uptime: u,
                log: match match_log(s, e) {
                    Some((lw, ln, lp, lu)) => Some(
                        LogCapture { word: lw, name: ln, pid: lp, uptime: lu },
                    ),
                    None => None,
                },
            },
        ),
        None => None,
    }
}

/// The earliest match at or after `i`.
pub open spec fn find_match(s: Seq<char>, name: Seq<char>, i: int) -> Option<StatusCapture>
    decreases s.len() - i,
    when 0 <= i <= s.len()
{
    if i >= s.len() {
        None
    } else if match_at(s, name, i) is Some {
        match_at(s, name, i)
    } else {
        find_match(s, name, i + 1)
    }
}

/// What parsing the status text yields: the earliest match of the whole
/// pattern, or nothing when no position matches.
pub open spec fn parse_spec(s: Seq<char>, name: Seq<char>) -> Option<StatusCapture> {
    find_match(s, name, 0)
}

/// Captures of the log clause with the digit runs already read as numbers.
pub struct RawLog {
    pub word: String,
    pub name: String,
    pub pid: Option<u32>,
    pub uptime: Option<u64>,
}

/// Captures of one whole match with the digit runs already read as
/// numbers.
pub struct RawStatus {
    pub word: String,
    pub pid: Option<u32>,
    pub uptime: Option<u64>,
    pub log: Option<RawLog>,
}

pub open spec fn log_corresponds(r: RawLog, c: LogCapture) -> bool {
    &&& r.word@ == c.word
    &&& r.name@ == c.name
    &&& r.pid == opt_num32(c.pid)
    &&& r.uptime == num64(c.uptime)
}

pub open spec fn status_corresponds(r: RawStatus, c: StatusCapture) -> bool {
    &&& r.word@ == c.word
    &&& r.pid == opt_num32(c.pid)
    &&& r.uptime == num64(c.uptime)
    &&& (r.log is Some <==> c.log is Some)
    &&& (r.log matches Some(rl) ==> log_corresponds(rl, c.log->Some_0))
}

proof fn lemma_digits_val_nonneg(d: Seq<char>)
    requires
        forall|k: int| 0 <= k < d.len() ==> is_digit(#[trigger] d[k]),
    ensures
        digits_val(d) >= 0,
    decreases d.len(),
{
    if d.len() > 0 {
        assert(forall|k: int|
            0 <= k < d.drop_last().len() ==> is_digit(#[trigger] d.drop_last()[k]));
        lemma_digits_val_nonneg(d.drop_last());
    }
}

fn is_digit_exec(c: char) -> (r: bool)
    ensures
        r == is_digit(c),
{
    let u = c as u32;
    48 <= u && u <= 57
}

fn run_to_colon(s: &str, n: usize, i: usize) -> (r: usize)
    requires
        i <= n,
        n == s@.len(),
    ensures
        r == run_end_nc(s@, i as int),
        i <= r <= n,
{
    let mut j = i;
    while j < n && s.get_char(j) != ':'
        invariant
            i <= j <= n,
            n == s@.len(),
            run_end_nc(s@, i as int) == run_end_nc(s@, j as int),
        decreases n - j,
    {
        proof {
            assert(run_end_nc(s@, j as int) == run_end_nc(s@, j + 1));
        }
        j = j + 1;
    }
    proof {
        assert(run_end_nc(s@, j as int) == j as int);
    }
    j
}

fn run_digits(s: &str, n: usize, i: usize) -> (r: usize)
    requires
        i <= n,
        n == s@.len(),
    ensures
        r == run_end_digits(s@, i as int),
        i <= r <= n,
        forall|k: int| i <= k < r ==> is_digit(#[trigger] s@[k]),
{
    let mut j = i;
    while j < n && is_digit_exec(s.get_char(j))
        invariant
            i <= j <= n,
            n == s@.len(),
            run_end_digits(s@, i as int) == run_end_digits(s@, j as int),
            forall|k: int| i <= k < j ==> is_digit(#[trigger] s@[k]),
        decreases n - j,
    {
        proof {
            assert(run_end_digits(s@, j as int) == run_end_digits(s@, j + 1));
        }
        j = j + 1;
    }
    proof {
        assert(run_end_digits(s@, j as int) == j as int);
    }
    j
}

fn starts_with_exec(s: &str, n: usize, i: usize, lit: &str) -> (r: bool)
    requires
        i <= n,
        n == s@.len(),
    ensures
        r == starts_with(s@, i as int, lit@),
{
    let m = lit.unicode_len();
    if m > n - i {
        return false;
    }
    let mut k: usize = 0;
    while k < m
        invariant
            k <= m,
            m == lit@.len(),
            i + m <= n,
            n == s@.len(),
            forall|t: int| 0 <= t < k ==> s@[i + t] == #[trigger] lit@[t],
        decreases m - k,
    {
        if s.get_char(i + k) != lit.get_char(k) {
            proof {
                assert(s@.subrange(i as int, i + m as int)[k as int] != lit@[k as int]);
            }
            return false;
        }
        k = k + 1;
    }
    proof {
        assert(s@.subrange(i as int, i + m as int) =~= lit@);
    }
    true
}

/// Read a digit run as a number, degrading to absent on overflow: a match
/// with an oversized number still succeeds, only the numeric field is
/// dropped.
fn parse_run_u64(s: &str, from: usize, to: usize) -> (r: Option<u64>)
    requires
        from <= to <= s@.len(),
        forall|k: int| from <= k < to ==> is_digit(#[trigger] s@[k]),
    ensures
        r == num64(s@.subrange(from as int, to as int)),
{
    let mut acc: u64 = 0;
    let mut over = false;
    let mut k = from;
    while k < to
        invariant
            from <= k <= to,
            to <= s@.len(),
            forall|t: int| from <= t < to ==> is_digit(#[trigger] s@[t]),
            !over ==> acc == digits_val(s@.subrange(from as int, k as int)),
            over ==> digits_val(s@.subrange(from as int, k as int)) > u64::MAX,
        decreases to - k,
    {
        let c = s.get_char(k);
        let ghost pre = s@.subrange(from as int, k as int);
        let ghost post = s@.subrange(from as int, k + 1);
        proof {
            assert(post.drop_last() =~= pre);
            assert(post.last() == s@[k as int]);
            assert(forall|t: int| 0 <= t < pre.len() ==> is_digit(#[trigger] pre[t]));
            lemma_digits_val_nonneg(pre);
        }
        let d: u32 = (c as u32) - 48;
        if !over {
            match acc.checked_mul(10) {
                None => {
                    over = true;
                },
                Some(t) => {
                    match t.checked_add(d as u64) {
                        None => {
                            over = true;
                        },
                        Some(v) => {
                            acc = v;
                        },
                    }
                },
            }
        }
        k = k + 1;
    }
    proof {
        assert(s@.subrange(from as int, to as int) == s@.subrange(from as int, k as int));
    }
    if over {
        None
    } else {
        Some(acc)
    }
}

fn to_pid(r64: Option<u64>) -> (r: Option<u32>)
    ensures
        r == match r64 {
            Some(v) => if v <= u32::MAX {
                Some(v as u32)
            } else {
                None::<u32>
            },
            None => None::<u32>,
        },
{
    match r64 {
        Some(v) => if v <= u32::MAX as u64 {
            Some(v as u32)
        } else {
            None
        },
        None => None,
    }
}

fn match_pid_exec(s: &str, n: usize, i: usize) -> (r: (Option<u32>, usize))
    requires
        i <= n,
        n == s@.len(),
    ensures
        ({
            let (d, j) = match_pid(s@, i as int);
            r.0 == opt_num32(d) && r.1 == j && i <= r.1 <= n
        }),
{
    if n - i < 6 || !starts_with_exec(s, n, i, " (pid ") {
        return (None, i);
    }
    let ds = i + 6;
    let de = run_digits(s, n, ds);
    if de > ds && de < n && s.get_char(de) == ')' {
        let v = parse_run_u64(s, ds, de);
        (to_pid(v), de + 1)
    } else {
        (None, i)
    }
}

fn match_uptime_exec(s: &str, n: usize, i: usize) -> (r: Option<(Option<u64>, usize)>)
    requires
        i <= n,
        n == s@.len(),
    ensures
        r is Some <==> match_uptime(s@, i as int) is Some,
        r matches Some((v, e)) ==> ({
            let (d, se) = match_uptime(s@, i as int)->Some_0;
            v == num64(d) && e == se && e <= n
        }),
{
    if i < n && s.get_char(i) == ' ' {
        let ds = i + 1;
        let de = run_digits(s, n, ds);
        if de > ds && de < n && s.get_char(de) == 's' {
            let v = parse_run_u64(s, ds, de);
            Some((v, de + 1))
        } else {
            None
        }
    } else {
        None
    }
}

fn match_tail_exec(s: &str, n: usize, i: usize) -> (r: Option<(Option<u32>, Option<u64>, usize)>)
    requires
        i <= n,
        n == s@.len(),
    ensures
        r is Some <==> match_tail(s@, i as int) is Some,
        r matches Some((p, v, e)) ==> ({
            let (sp, sd, se) = match_tail(s@, i as int)->Some_0;
            p == opt_num32(sp) && v == num64(sd) && e == se && e <= n
        }),
{
    let (pid, j) = match_pid_exec(s, n, i);
    match match_uptime_exec(s, n, j) {
        Some((v, e)) => Some((pid, v, e)),
        None => None,
    }
}

fn match_main_exec(s: &str, n: usize, name: &str, i: usize) -> (r: Option<
    (String, Option<u32>, Option<u64>, usize),
>)
    requires
        i <= n,
        n == s@.len(),
    ensures
        r is Some <==> match_main(s@, name@, i as int) is Some,
        r matches Some((w, p, v, e)) ==> ({
            let c = match_main(s@, name@, i as int)->Some_0;
            w@ == c.0 && p == opt_num32(c.1) && v == num64(c.2) && e == c.3 && e <= n
        }),
{
    let we = run_to_colon(s, n, i);
    if we == i {
        return None;
    }
    if n - we < 2 || !starts_with_exec(s, n, we, ": ") {
        return None;
    }
    let we2 = we + 2;
    let nlen = name.unicode_len();
    if nlen > n - we2 || !starts_with_exec(s, n, we2, name) {
        return None;
    }
    let pos = we2 + nlen;
    if pos >= n || s.get_char(pos) != ':' {
        proof {
            assert(!starts_with(s@, pos as int, ":"@)) by {
                reveal_strlit(":");
                if pos < n {
                    assert(s@.subrange(pos as int, pos + 1)[0] == s@[pos as int]);
                }
            }
        }
        return None;
    }
    proof {
        assert(starts_with(s@, pos as int, ":"@)) by {
            reveal_strlit(":");
            assert(s@.subrange(pos as int, pos + 1) =~= ":"@);
        }
    }
    match match_tail_exec(s, n, pos + 1) {
        Some((p, v, e)) => {
            let w = s.substring_char(i, we).to_owned();
            Some((w, p, v, e))
        },
        None => None,
    }
}

fn match_log_exec(s: &str, n: usize, i: usize) -> (r: Option<RawLog>)
    requires
        i <= n,
        n == s@.len(),
    ensures
        r is Some <==> match_log(s@, i as int) is Some,
        r matches Some(rl) ==> ({
            let c = match_log(s@, i as int)->Some_0;
            rl.word@ == c.0 && rl.name@ == c.1 && rl.pid == opt_num32(c.2) && rl.uptime == num64(
                c.3,
            )
        }),
{
    if n - i < 2 || !starts_with_exec(s, n, i, "; ") {
        return None;
    }
    let ws = i + 2;
    let we = run_to_colon(s, n, ws);
    if we == ws {
        return None;
    }
    if n - we < 2 || !starts_with_exec(s, n, we, ": ") {
        return None;
    }
    let ns = we + 2;
    let ne = run_to_colon(s, n, ns);
    if ne == ns {
        return None;
    }
    if ne >= n || s.get_char(ne) != ':' {
        return None;
    }
    match match_tail_exec(s, n, ne + 1) {
        Some((p, v, _e)) => {
            let word = s.substring_char(ws, we).to_owned();
            let name = s.substring_char(ns, ne).to_owned();
            Some(RawLog { word, name, pid: p, uptime: v })
        },
        None => None,
    }
}

fn match_at_exec(s: &str, n: usize, name: &str, i: usize) -> (r: Option<RawStatus>)
    requires
        i <= n,
        n == s@.len(),
    ensures
        r is Some <==> match_at(s@, name@, i as int) is Some,
        r matches Some(rs) ==> status_corresponds(rs, match_at(s@, name@, i as int)->Some_0),
{
    match match_main_exec(s, n, name, i) {
        Some((word, pid, uptime, e)) => {
            let log = match_log_exec(s, n, e);
            Some(RawStatus { word, pid, uptime, log })
        },
        None => None,
    }
}

/// Match the status text against the pattern anchored at the earliest
/// position where it fits, with the service name embedded literally.
pub fn parse_status_text(output: &str, name: &str) -> (r: Option<RawStatus>)
    ensures
        r is Some <==> parse_spec(output@, name@) is Some,
        r matches Some(rs) ==> status_corresponds(rs, parse_spec(output@, name@)->Some_0),
{
    let n = output.unicode_len();
    let mut i: usize = 0;
    while i < n
        invariant
            i <= n,
            n == output@.len(),
            find_match(output@, name@, 0) == find_match(output@, name@, i as int),
        decreases n - i,
    {
        let m = match_at_exec(output, n, name, i);
        if m.is_some() {
            proof {
                assert(find_match(output@, name@, i as int) == match_at(output@, name@, i as int));
            }
            return m;
        }
        proof {
            assert(find_match(output@, name@, i as int) == find_match(output@, name@, i + 1));
        }
        i = i + 1;
    }
    proof {
        assert(find_match(output@, name@, i as int) is None);
    }
    None
}

} // verus!
