//! Locating and shaping the tail of a service's log file.
//!
//! The supervisor keeps each service's log under a directory owned by the
//! companion log process; the readable file is always named `current`.
//! Reading the file and introspecting the log process happen outside the
//! library; the path arithmetic and the assembly of the returned text are
//! decided here.

use crate::tail::NEWLINE;
use vstd::prelude::*;
use vstd::string::StringExecFns;

verus! {

/// How many lines a log request returns when the caller names no count.
pub const DEFAULT_LOG_LINES: usize = 50;

/// `ls` joined into one text by single newlines, with no trailing newline.
pub open spec fn joined(ls: Seq<Seq<u8>>) -> Seq<u8>
    decreases ls.len(),
{
    if ls.len() == 0 {
        Seq::<u8>::empty()
    } else if ls.len() == 1 {
        ls[0]
    } else {
        joined(ls.drop_last()) + seq![NEWLINE] + ls.last()
    }
}

/// Query parameters of a log request.
#[derive(Clone, Copy, Debug)]
pub struct LogQuery {
    pub lines: Option<usize>,
}

impl LogQuery {
    /// The requested line count, defaulted when absent.
    pub fn lines_or_default(&self) -> (r: usize)
        ensures
            r == match self.lines {
                Some(n) => n,
                None => DEFAULT_LOG_LINES,
            },
    {
        match self.lines {
            Some(n) => n,
            None => DEFAULT_LOG_LINES,
        }
    }
}

/// The path of the readable log file inside a resolved log directory.
pub fn current_log_path(log_dir: &str) -> (r: String)
    ensures
        r@ == log_dir@ + "/current"@,
{
    let s = String::from_str(log_dir);
    s.concat("/current")
}

/// The returned log text: the tailed lines joined by single newlines, with
/// no trailing newline.
pub fn join_lines(lines: &Vec<Vec<u8>>) -> (r: Vec<u8>)
    ensures
        r@ == joined(lines.deep_view()),
{
    let ghost dv = lines.deep_view();
    let mut r: Vec<u8> = Vec::new();
    let mut i: usize = 0;
    proof {
        assert(r@ =~= joined(dv.take(0)));
    }
    while i < lines.len()
        invariant
            i <= lines@.len(),
            dv == lines.deep_view(),
            dv.len() == lines@.len(),
            r@ == joined(dv.take(i as int)),
        decreases lines@.len() - i,
    {
        if i > 0 {
            r.push(NEWLINE);
        }
        let ghost base = r@;
        let line = &lines[i];
        proof {
            assert(dv[i as int] =~= line@);
        }
        let mut j: usize = 0;
        while j < line.len()
            invariant
                j <= line@.len(),
                r@ == base + line@.take(j as int),
            decreases line@.len() - j,
        {
            let b = line[j];
            proof {
                assert(base + line@.take(j + 1) =~= (base + line@.take(j as int)).push(
                    line@[j as int],
                ));
            }
            r.push(b);
            j = j + 1;
        }
        proof {
            assert(line@.take(line@.len() as int) =~= line@);
            assert(dv.take(i + 1).drop_last() =~= dv.take(i as int));
            assert(dv.take(i + 1).last() == dv[i as int]);
            if i == 0 {
                assert(r@ =~= joined(dv.take(1)));
            } else {
                assert(r@ =~= joined(dv.take(i as int)) + seq![NEWLINE] + dv[i as int]);
            }
        }
        i = i + 1;
    }
    proof {
        assert(dv.take(dv.len() as int) =~= dv);
    }
    r
}

} // verus!
