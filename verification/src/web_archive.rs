use vstd::prelude::*;
use vstd::string::StrSliceExecFns;
use vstd::string::StringExecFns;

verus! {

/// Lifecycle of a web archive task.
#[derive(Debug, Clone, Copy, PartialEq, Eq, Structural)]
pub enum ArchiveState {
    Queued,
    Crawling,
    Downloading,
    Packaging,
    Uploading,
    Completed,
    Failed,
    Cancelled,
}

/// Options for a web archive task.
#[derive(Debug, Clone)]
pub struct ArchiveOptions {
    pub url: String,
    pub max_depth: u32,
    pub max_pages: u32,
    pub include_assets: bool,
    pub request_delay_ms: u64,
}

/// `n` times the parent-directory step.
pub open spec fn dotdots(n: int) -> Seq<char>
    decreases n,
{
    if n <= 0 {
        Seq::empty()
    } else {
        dotdots(n - 1) + seq!['.', '.', '/']
    }
}

/// How many path separators a path contains: the number of directories the
/// relative link has to step out of.
pub open spec fn slash_count(s: Seq<char>) -> int
    decreases s.len(),
{
    if s.len() == 0 {
        0
    } else {
        (if s[0] == '/' {
            1int
        } else {
            0int
        }) + slash_count(s.drop_first())
    }
}

proof fn lemma_slash_count_snoc(s: Seq<char>, i: int)
    requires
        0 <= i < s.len(),
    ensures
        slash_count(s.subrange(0, i + 1)) == slash_count(s.subrange(0, i)) + (if s[i] == '/' {
            1int
        } else {
            0int
        }),
    decreases i,
{
    if i == 0 {
        assert(s.subrange(0, 1).drop_first() =~= s.subrange(0, 0));
    } else {
        let t = s.drop_first();
        lemma_slash_count_snoc(t, i - 1);
        assert(s.subrange(0, i + 1).drop_first() =~= t.subrange(0, i));
        assert(s.subrange(0, i).drop_first() =~= t.subrange(0, i - 1));
        assert(t[i - 1] == s[i]);
    }
}

/// The relative link from the file at `from` to the file at `to`, both
/// given as archive-root-relative paths: one parent step per directory of
/// `from`, then `to` itself.
pub fn compute_relative_path(from: &str, to: &str) -> (r: String)
    ensures
        r@ == dotdots(slash_count(from@)) + to@,
{
    let n = from.unicode_len();
    let mut out = String::new();
    let mut i: usize = 0;
    let mut ups: Ghost<int> = Ghost(0);
    while i < n
        invariant
            n == from@.len(),
            i <= n,
            ups@ == slash_count(from@.subrange(0, i as int)),
            out@ =~= dotdots(ups@),
            ups@ >= 0,
        decreases n - i,
    {
        let c = from.get_char(i);
        if c == '/' {
            proof {
                reveal_strlit("../");
            }
            out.append("../");
            proof {
                lemma_slash_count_snoc(from@, i as int);
                assert(out@ =~= dotdots(ups@) + seq!['.', '.', '/']);
            }
            ups = Ghost(ups@ + 1);
        } else {
            proof {
                lemma_slash_count_snoc(from@, i as int);
            }
        }
        i = i + 1;
    }
    proof {
        assert(from@.subrange(0, n as int) =~= from@);
    }
    out.append(to);
    out
}

} // verus!
