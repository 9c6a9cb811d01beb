//! The ignore list: relative paths that the tree builder skips, with their
//! whole subtrees. An entry matches a path exactly, segment for segment, so
//! `build` does not hide `build2`.

use vstd::prelude::*;
use crate::text::{push_char, str_eq};
use crate::tree::strings_view;

verus! {

/// Whitespace that ignore-file lines are trimmed of: the characters with the
/// Unicode `White_Space` property, which `str::trim` removes.
pub open spec fn is_blank(c: char) -> bool {
    ||| '\u{9}' <= c && c <= '\u{d}'
    ||| c == ' '
    ||| c == '\u{85}'
    ||| c == '\u{a0}'
    ||| c == '\u{1680}'
    ||| '\u{2000}' <= c && c <= '\u{200a}'
    ||| c == '\u{2028}'
    ||| c == '\u{2029}'
    ||| c == '\u{202f}'
    ||| c == '\u{205f}'
    ||| c == '\u{3000}'
}

/// `s` without leading blanks.
pub open spec fn trim_start(s: Seq<char>) -> Seq<char>
    decreases s.len(),
{
    if s.len() > 0 && is_blank(s[0]) {
        trim_start(s.drop_first())
    } else {
        s
    }
}

/// `s` without trailing blanks.
pub open spec fn trim_end(s: Seq<char>) -> Seq<char>
    decreases s.len(),
{
    if s.len() > 0 && is_blank(s.last()) {
        trim_end(s.drop_last())
    } else {
        s
    }
}

/// `s` without trailing slashes.
pub open spec fn strip_slashes(s: Seq<char>) -> Seq<char>
    decreases s.len(),
{
    if s.len() > 0 && s.last() == '/' {
        strip_slashes(s.drop_last())
    } else {
        s
    }
}

/// The path that one line of an ignore file names: the line trimmed of
/// whitespace, then without trailing `/`. A blank line names the empty path.
pub open spec fn ignore_entry(line: Seq<char>) -> Seq<char> {
    strip_slashes(trim_end(trim_start(line)))
}

/// The entries of the lines of `s`, with `cur` already read of the current
/// line. Lines end at `\n`; text after the last `\n` is a line unless empty.
pub open spec fn entries_from(s: Seq<char>, cur: Seq<char>) -> Seq<Seq<char>>
    decreases s.len(),
{
    if s.len() == 0 {
        if cur.len() == 0 {
            seq![]
        } else {
            seq![ignore_entry(cur)]
        }
    } else if s[0] == '\n' {
        seq![ignore_entry(cur)] + entries_from(s.drop_first(), seq![])
    } else {
        entries_from(s.drop_first(), cur.push(s[0]))
    }
}

/// The ignore list of an ignore file's text: the metadata directory, then
/// one entry per line.
pub open spec fn ignore_list(contents: Seq<char>) -> Seq<Seq<char>> {
    seq![seq!['.', 'g', 'u', 'd']] + entries_from(contents, seq![])
}

fn is_blank_char(c: char) -> (r: bool)
    ensures
        r == is_blank(c),
{
    ('\u{9}' <= c && c <= '\u{d}') || c == ' ' || c == '\u{85}' || c == '\u{a0}' || c
        == '\u{1680}' || ('\u{2000}' <= c && c <= '\u{200a}') || c == '\u{2028}' || c
        == '\u{2029}' || c == '\u{202f}' || c == '\u{205f}' || c == '\u{3000}'
}

/// The path that one ignore-file line names.
pub fn normalize_ignore_entry(line: &str) -> (r: String)
    ensures
        r@ == ignore_entry(line@),
{
    let n = line.unicode_len();
    let mut lo: usize = 0;
    assert(line@.subrange(0, n as int) =~= line@);
    while lo < n && is_blank_char(line.get_char(lo))
        invariant
            n == line@.len(),
            lo <= n,
            trim_start(line@.subrange(lo as int, n as int)) == trim_start(line@),
        decreases n - lo,
    {
        assert(line@.subrange(lo as int, n as int).drop_first() =~= line@.subrange(
            lo as int + 1,
            n as int,
        ));
        lo = lo + 1;
    }
    assert(trim_start(line@) == line@.subrange(lo as int, n as int));
    let mut hi: usize = n;
    while hi > lo && is_blank_char(line.get_char(hi - 1))
        invariant
            n == line@.len(),
            lo <= hi <= n,
            trim_end(line@.subrange(lo as int, hi as int)) == trim_end(trim_start(line@)),
        decreases hi - lo,
    {
        assert(line@.subrange(lo as int, hi as int).drop_last() =~= line@.subrange(
            lo as int,
            hi as int - 1,
        ));
        hi = hi - 1;
    }
    assert(trim_end(trim_start(line@)) == line@.subrange(lo as int, hi as int));
    while hi > lo && line.get_char(hi - 1) == '/'
        invariant
            n == line@.len(),
            lo <= hi <= n,
            strip_slashes(line@.subrange(lo as int, hi as int)) == ignore_entry(line@),
        decreases hi - lo,
    {
        assert(line@.subrange(lo as int, hi as int).drop_last() =~= line@.subrange(
            lo as int,
            hi as int - 1,
        ));
        hi = hi - 1;
    }
    line.substring_char(lo, hi).to_string()
}

fn push_entry(out: &mut Vec<String>, line: String)
    ensures
        strings_view(final(out)@) == strings_view(old(out)@).push(ignore_entry(line@)),
{
    let e = normalize_ignore_entry(line.as_str());
    out.push(e);
    assert(strings_view(final(out)@) =~= strings_view(old(out)@).push(ignore_entry(line@)));
}

/// The ignore list of an ignore file's text (empty text where there is no
/// file): the metadata directory `.gud` always, then one entry per line,
/// the line trimmed of whitespace and of trailing `/` (a blank line gives
/// the empty path, which matches nothing).
pub fn process_ignore_file(contents: &str) -> (r: Vec<String>)
    ensures
        strings_view(r@) == ignore_list(contents@),
{
    let n = contents.unicode_len();
    let mut out: Vec<String> = Vec::new();
    let meta = String::from_str(".gud");
    proof {
        reveal_strlit(".gud");
        assert(meta@ =~= seq!['.', 'g', 'u', 'd']);
    }
    out.push(meta);
    proof {
        assert(strings_view(out@) =~= seq![seq!['.', 'g', 'u', 'd']]);
    }
    let mut cur = String::new();
    let mut i: usize = 0;
    assert(contents@.subrange(0, n as int) =~= contents@);
    while i < n
        invariant
            n == contents@.len(),
            i <= n,
            strings_view(out@) + entries_from(contents@.subrange(i as int, n as int), cur@)
                == ignore_list(contents@),
        decreases n - i,
    {
        let c = contents.get_char(i);
        let ghost rest = contents@.subrange(i as int, n as int);
        assert(rest.drop_first() =~= contents@.subrange(i as int + 1, n as int));
        if c == '\n' {
            let line = cur;
            cur = String::new();
            push_entry(&mut out, line);
            assert(strings_view(out@) + entries_from(
                contents@.subrange(i as int + 1, n as int),
                cur@,
            ) =~= ignore_list(contents@));
        } else {
            push_char(&mut cur, c);
        }
        i = i + 1;
    }
    assert(contents@.subrange(n as int, n as int) =~= Seq::<char>::empty());
    if cur.unicode_len() > 0 {
        push_entry(&mut out, cur);
    }
    assert(strings_view(out@) =~= ignore_list(contents@));
    out
}

/// Whether a relative path is on the ignore list.
pub fn is_ignored(ignore: &Vec<String>, path: &str) -> (r: bool)
    ensures
        r == strings_view(ignore@).contains(path@),
{
    let mut i: usize = 0;
    while i < ignore.len()
        invariant
            i <= ignore@.len(),
            forall|j: int| 0 <= j < i ==> ignore@[j]@ != path@,
        decreases ignore@.len() - i,
    {
        if str_eq(ignore[i].as_str(), path) {
            assert(strings_view(ignore@)[i as int] == path@);
            return true;
        }
        i = i + 1;
    }
    assert forall|j: int| 0 <= j < strings_view(ignore@).len() implies strings_view(ignore@)[j]
        != path@ by {
        assert(strings_view(ignore@)[j] == ignore@[j]@);
    }
    false
}

} // verus!
