use vstd::prelude::*;
use vstd::string::StrSliceExecFns;

use crate::handler::AppHandler;

verus! {

/// The non-empty segments of `s` between `/` separators, scanning from
/// position `i` with the current segment starting at `start`.
pub open spec fn tokens_from(s: Seq<char>, start: int, i: int) -> Seq<Seq<char>>
    decreases s.len() - i,
{
    if i >= s.len() {
        if start < s.len() {
            seq![s.subrange(start, s.len() as int)]
        } else {
            seq![]
        }
    } else if s[i] == '/' {
        let head = if start < i {
            seq![s.subrange(start, i)]
        } else {
            seq![]
        };
        head + tokens_from(s, i + 1, i + 1)
    } else {
        tokens_from(s, start, i + 1)
    }
}

/// The non-empty `/`-separated segments of a path, in order.
pub open spec fn tokens(s: Seq<char>) -> Seq<Seq<char>> {
    tokens_from(s, 0, 0)
}

/// Views of a vector of strings.
pub open spec fn strings_view(v: Seq<String>) -> Seq<Seq<char>> {
    v.map_values(|t: String| t@)
}

impl AppHandler {
    /// Splits `source` on `/` and keeps the non-empty segments.
    pub fn tokenise_string(source: &str) -> (r: Vec<String>)
        ensures
            strings_view(r@) == tokens(source@),
    {
        let n = source.unicode_len();
        let mut out: Vec<String> = Vec::new();
        let mut start: usize = 0;
        let mut i: usize = 0;
        while i < n
            invariant
                n == source@.len(),
                start <= i <= n,
                strings_view(out@) + tokens_from(source@, start as int, i as int) == tokens(source@),
            decreases n - i,
        {
            let c = source.get_char(i);
            if c == '/' {
                if start < i {
                    let piece = source.substring_char(start, i).to_owned();
                    let ghost before = out@;
                    out.push(piece);
                    assert(strings_view(out@) =~= strings_view(before) + seq![piece@]);
                }
                proof {
                    let s = source@;
                    assert(tokens_from(s, start as int, i as int) == (if (start as int) < (i as int) {
                        seq![s.subrange(start as int, i as int)]
                    } else {
                        seq![]
                    }) + tokens_from(s, i + 1, i + 1));
                }
                i = i + 1;
                start = i;
                assert(strings_view(out@) + tokens_from(source@, start as int, i as int) =~= tokens(source@));
            } else {
                i = i + 1;
            }
        }
        if start < n {
            let piece = source.substring_char(start, n).to_owned();
            let ghost before = out@;
            out.push(piece);
            assert(strings_view(out@) =~= strings_view(before) + seq![piece@]);
        }
        assert(strings_view(out@) =~= tokens(source@));
        out
    }
}

} // verus!
