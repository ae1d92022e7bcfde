//! The target router: classifies a request's raw target path into exactly
//! one route. The rules are ordered and first-match: the exact path `/`,
//! then the prefix `/echo/`, then the exact path `/user-agent`, then the
//! prefix `/files/`, and everything else is unrouted. Classification never
//! fails: an absent or unmatched target is simply unrouted.

use vstd::prelude::*;

use crate::message::{HttpTarget, TargetView};
use crate::text::{starts_with, starts_with_bytes, bytes_eq, subvec};

verus! {

pub open spec fn lit_slash() -> Seq<u8> {
    seq!['/' as u8]
}

pub fn slash_bytes() -> (v: Vec<u8>)
    ensures
        v@ == lit_slash(),
{
    let mut v: Vec<u8> = Vec::new();
    v.push('/' as u8);
    assert(v@ =~= lit_slash());
    v
}

pub open spec fn lit_echo_prefix() -> Seq<u8> {
    seq!['/' as u8, 'e' as u8, 'c' as u8, 'h' as u8, 'o' as u8, '/' as u8]
}

pub fn echo_prefix_bytes() -> (v: Vec<u8>)
    ensures
        v@ == lit_echo_prefix(),
{
    let mut v: Vec<u8> = Vec::new();
    v.push('/' as u8);
    v.push('e' as u8);
    v.push('c' as u8);
    v.push('h' as u8);
    v.push('o' as u8);
    v.push('/' as u8);
    assert(v@ =~= lit_echo_prefix());
    v
}

pub open spec fn lit_user_agent_path() -> Seq<u8> {
    seq![
        '/' as u8,
        'u' as u8,
        's' as u8,
        'e' as u8,
        'r' as u8,
        '-' as u8,
        'a' as u8,
        'g' as u8,
        'e' as u8,
        'n' as u8,
        't' as u8,
    ]
}

pub fn user_agent_path_bytes() -> (v: Vec<u8>)
    ensures
        v@ == lit_user_agent_path(),
{
    let mut v: Vec<u8> = Vec::new();
    v.push('/' as u8);
    v.push('u' as u8);
    v.push('s' as u8);
    v.push('e' as u8);
    v.push('r' as u8);
    v.push('-' as u8);
    v.push('a' as u8);
    v.push('g' as u8);
    v.push('e' as u8);
    v.push('n' as u8);
    v.push('t' as u8);
    assert(v@ =~= lit_user_agent_path());
    v
}

pub open spec fn lit_files_prefix() -> Seq<u8> {
    seq!['/' as u8, 'f' as u8, 'i' as u8, 'l' as u8, 'e' as u8, 's' as u8, '/' as u8]
}

pub fn files_prefix_bytes() -> (v: Vec<u8>)
    ensures
        v@ == lit_files_prefix(),
{
    let mut v: Vec<u8> = Vec::new();
    v.push('/' as u8);
    v.push('f' as u8);
    v.push('i' as u8);
    v.push('l' as u8);
    v.push('e' as u8);
    v.push('s' as u8);
    v.push('/' as u8);
    assert(v@ =~= lit_files_prefix());
    v
}

/// The route of a target path: the ordered, first-match classification.
/// It is total — every path falls in exactly one case — and, being a
/// function of the path alone, deterministic.
pub open spec fn spec_classify(t: Seq<u8>) -> TargetView {
    if t == lit_slash() {
        TargetView::Root
    } else if starts_with(t, lit_echo_prefix()) {
        TargetView::Echo(t.skip(lit_echo_prefix().len() as int))
    } else if t == lit_user_agent_path() {
        TargetView::UserAgent
    } else if starts_with(t, lit_files_prefix()) {
        TargetView::Files(t.skip(lit_files_prefix().len() as int))
    } else {
        TargetView::NotFound
    }
}

/// The route of an optional target token: a missing token is unrouted.
pub open spec fn spec_classify_opt(t: Option<Seq<u8>>) -> TargetView {
    match t {
        Option::Some(s) => spec_classify(s),
        Option::None => TargetView::NotFound,
    }
}

/// Classifies the raw target token of the start line. There is no failure
/// mode: every input, including a missing token, is classified.
pub fn parse_target(s: Option<&Vec<u8>>) -> (r: Result<HttpTarget, ()>)
    ensures
        r is Ok,
        r->Ok_0@ == spec_classify_opt(match s {
            Option::Some(v) => Option::Some(v@),
            Option::None => Option::None,
        }),
{
    match s {
        Option::None => Ok(HttpTarget::NotFound),
        Option::Some(v) => {
            let slash = slash_bytes();
            let echo = echo_prefix_bytes();
            let ua = user_agent_path_bytes();
            let files = files_prefix_bytes();
            if bytes_eq(v, &slash) {
                Ok(HttpTarget::Root)
            } else if starts_with_bytes(v, &echo) {
                let rem = subvec(v, 6, v.len());
                assert(rem@ =~= v@.skip(lit_echo_prefix().len() as int));
                Ok(HttpTarget::Echo(rem))
            } else if bytes_eq(v, &ua) {
                Ok(HttpTarget::UserAgent)
            } else if starts_with_bytes(v, &files) {
                let rem = subvec(v, 7, v.len());
                assert(rem@ =~= v@.skip(lit_files_prefix().len() as int));
                Ok(HttpTarget::Files(rem))
            } else {
                Ok(HttpTarget::NotFound)
            }
        },
    }
}

/// Classification is total and deterministic, with first-match precedence:
/// each route other than the unrouted case holds if and only if its rule
/// matches, so every target path falls in exactly one case, and the same
/// path always yields the same route.
pub proof fn lemma_classify_cases(t: Seq<u8>)
    ensures
        spec_classify(t) is Root <==> t == lit_slash(),
        spec_classify(t) is Echo <==> (starts_with(t, lit_echo_prefix()) && t != lit_slash()),
        spec_classify(t) matches TargetView::Echo(p) ==> t == lit_echo_prefix() + p,
        spec_classify(t) is UserAgent <==> t == lit_user_agent_path(),
        spec_classify(t) is Files <==> starts_with(t, lit_files_prefix()),
        spec_classify(t) matches TargetView::Files(p) ==> t == lit_files_prefix() + p,
        spec_classify(t) is NotFound <==> (t != lit_slash() && !starts_with(t, lit_echo_prefix())
            && t != lit_user_agent_path() && !starts_with(t, lit_files_prefix())),
{
    // The rules cannot overlap: `/` is too short to carry either prefix,
    // `/user-agent` diverges from `/echo/` and `/files/` at its second
    // byte, and the two prefixes diverge there as well.
    if starts_with(t, lit_echo_prefix()) {
        assert(t != lit_slash());
        assert(t.subrange(0, 6)[1] == t[1]);
        assert(t != lit_user_agent_path());
        assert(!starts_with(t, lit_files_prefix())) by {
            if starts_with(t, lit_files_prefix()) {
                assert(t.subrange(0, 7)[1] == t[1]);
            }
        }
        assert(t =~= lit_echo_prefix() + t.skip(6));
    }
    if starts_with(t, lit_files_prefix()) {
        assert(t != lit_slash());
        assert(t.subrange(0, 7)[1] == t[1]);
        assert(t != lit_user_agent_path()) by {
            if t == lit_user_agent_path() {
                assert(t.subrange(0, 7)[1] == t[1]);
            }
        }
        assert(t =~= lit_files_prefix() + t.skip(7));
    }
}

} // verus!
