//! The licence of a contract given as source text: the last line comment
//! of the form `// SPDX-License-Identifier: <licence>`.
use vstd::prelude::*;
use crate::text::{is_prefix, starts_with, trim_start_all, trim_start_matches};

verus! {

/// The four kinds of comment that the Solidity lexer tells apart.
#[derive(Debug, Clone, Copy, PartialEq, Eq, Structural)]
pub enum CommentKind {
    Line,
    Block,
    DocLine,
    DocBlock,
}

/// What `solang_parser::parse` gives back for the comments of `src` (with
/// `file_no` as the number of the file): `None` where the source does not
/// parse, else each comment's kind and text, in source order.
pub uninterp spec fn solang_comments(src: Seq<char>, file_no: usize) -> Option<Seq<(CommentKind, Seq<char>)>>;

/// Calls `solang_parser::parse` on `src` and keeps the comments it found,
/// each with its kind and its text, `//` or `/*` included.
///
/// The contract claims only that the result is the one that `parse` gives
/// for these two arguments (`solang_comments`); what the parser accepts and
/// how it splits comments is left to the crate.
#[verifier::external_body]
fn parse_comments(src: &str, file_no: usize) -> (r: Option<Vec<(CommentKind, String)>>)
    ensures
        r is None <==> solang_comments(src@, file_no) is None,
        r matches Some(v) ==> {
            let cs = solang_comments(src@, file_no)->0;
            &&& v@.len() == cs.len()
            &&& forall|i: int| 0 <= i < cs.len() ==> (#[trigger] v@[i]).0 == cs[i].0 && v@[i].1@ == cs[i].1
        },
{
    match solang_parser::parse(src, file_no) {
        Ok((_, comments)) => Some(comments.into_iter().map(|c| match c {
            solang_parser::pt::Comment::Line(_, t) => (CommentKind::Line, t),
            solang_parser::pt::Comment::Block(_, t) => (CommentKind::Block, t),
            solang_parser::pt::Comment::DocLine(_, t) => (CommentKind::DocLine, t),
            solang_parser::pt::Comment::DocBlock(_, t) => (CommentKind::DocBlock, t),
        }).collect()),
        Err(_) => None,
    }
}

pub open spec fn spdx_prefix() -> Seq<char> {
    seq!['S', 'P', 'D', 'X', '-', 'L', 'i', 'c', 'e', 'n', 's', 'e', '-', 'I', 'd', 'e', 'n', 't', 'i', 'f', 'i', 'e', 'r', ':']
}

/// The licence a line comment names: with the leading slashes and spaces
/// taken off, the text after `SPDX-License-Identifier:` and the spaces that
/// follow it; `None` where the comment does not begin so.
pub open spec fn comment_license(text: Seq<char>) -> Option<Seq<char>> {
    let t = trim_start_all(trim_start_all(text, seq!['/', '/']), seq![' ']);
    if is_prefix(spdx_prefix(), t) {
        Some(trim_start_all(trim_start_all(t, spdx_prefix()), seq![' ']))
    } else {
        None
    }
}

/// The licence named by the last line comment of `cs` that names one.
pub open spec fn last_license(cs: Seq<(CommentKind, Seq<char>)>) -> Option<Seq<char>>
    decreases cs.len(),
{
    if cs.len() == 0 {
        None
    } else {
        let c = cs.last();
        if c.0 == CommentKind::Line && comment_license(c.1) is Some {
            comment_license(c.1)
        } else {
            last_license(cs.drop_last())
        }
    }
}

/// The licence of a line comment, as `comment_license` says.
pub fn license_of_comment(text: &str) -> (r: Option<String>)
    ensures
        match comment_license(text@) {
            Some(l) => r matches Some(s) && s@ == l,
            None => r is None,
        },
{
    let prefix = "SPDX-License-Identifier:";
    proof {
        reveal_strlit("SPDX-License-Identifier:");
        reveal_strlit("//");
        reveal_strlit(" ");
        assert(prefix@ =~= spdx_prefix());
        assert("//"@ =~= seq!['/', '/']);
        assert(" "@ =~= seq![' ']);
    }
    let t = trim_start_matches(trim_start_matches(text, "//"), " ");
    if starts_with(t, prefix) {
        let l = trim_start_matches(trim_start_matches(t, prefix), " ");
        Some(l.to_string())
    } else {
        None
    }
}

/// The licence that the comments `cs` declare: that of the last line
/// comment that names one, as `last_license` says.
pub fn license_from_comments(cs: &Vec<(CommentKind, String)>) -> (r: Option<String>)
    ensures
        match last_license(cs@.map_values(|c: (CommentKind, String)| (c.0, c.1@))) {
            Some(l) => r matches Some(s) && s@ == l,
            None => r is None,
        },
{
    let ghost m = cs@.map_values(|c: (CommentKind, String)| (c.0, c.1@));
    let mut license: Option<String> = None;
    let mut i: usize = 0;
    while i < cs.len()
        invariant
            i <= cs@.len(),
            m == cs@.map_values(|c: (CommentKind, String)| (c.0, c.1@)),
            match last_license(m.subrange(0, i as int)) {
                Some(l) => license matches Some(s) && s@ == l,
                None => license is None,
            },
        decreases cs@.len() - i,
    {
        let (kind, text) = (&cs[i].0, &cs[i].1);
        assert(m.subrange(0, i + 1).drop_last() =~= m.subrange(0, i as int));
        assert(m.subrange(0, i + 1).last() == m[i as int]);
        if *kind == CommentKind::Line {
            match license_of_comment(text) {
                Some(l) => {
                    license = Some(l);
                },
                None => {},
            }
        }
        i = i + 1;
    }
    assert(m.subrange(0, cs@.len() as int) =~= m);
    license
}

/// The licence that `src` declares in its comments, as `solang_parser`
/// splits them: `None` where the source does not parse, else the licence
/// of the last line comment that names one.
pub fn source_license(src: &str, file_no: usize) -> (r: Option<Option<String>>)
    ensures
        r is None <==> solang_comments(src@, file_no) is None,
        r matches Some(l) ==> match last_license(solang_comments(src@, file_no)->0) {
            Some(t) => l matches Some(s) && s@ == t,
            None => l is None,
        },
{
    match parse_comments(src, file_no) {
        None => None,
        Some(cs) => {
            let l = license_from_comments(&cs);
            proof {
                let named = solang_comments(src@, file_no)->0;
                assert(cs@.map_values(|c: (CommentKind, String)| (c.0, c.1@)) =~= named);
            }
            Some(l)
        },
    }
}

} // verus!
