//! The match predicate: given one entry and the search arguments, decides
//! pass or fail by combining the file-only gate, the name match and the
//! suffix match.

use vstd::prelude::*;
use vstd::string::StrSliceExecFns;
use crate::args::Argument;
use crate::text::chars_of;
use crate::text::contains_chars;
use crate::text::contains_seq;
use crate::text::ext_of;
use crate::text::find_last_dot;
use crate::text::has_dot;
use crate::text::lemma_last_dot;
use crate::text::lower_of;
use crate::text::lower_str;
use crate::text::split_commas;
use crate::text::split_commas_str;
use crate::text::trim_of;
use crate::text::trim_str;
use crate::tree::Entry;
use crate::tree::EntryV;

verus! {

/// The entry's name passes the name criterion: equality in strict mode,
/// containment otherwise, both sides lowercased when case is ignored.
pub open spec fn name_match(name: Seq<char>, args: Argument) -> bool {
    if args.strict_mode {
        if args.case_miss {
            lower_of(name) == lower_of(args.name@)
        } else {
            name == args.name@
        }
    } else {
        if args.case_miss {
            contains_seq(lower_of(name), lower_of(args.name@))
        } else {
            contains_seq(name, args.name@)
        }
    }
}

/// The suffix filter's token set: the comma-separated pieces of the
/// suffix argument, each trimmed of whitespace and lowercased.
pub open spec fn suffix_tokens(suffix: Seq<char>) -> Seq<Seq<char>> {
    split_commas(suffix).map_values(|p: Seq<char>| lower_of(trim_of(p)))
}

/// The entry's name passes the suffix criterion: an empty suffix argument
/// requests no filter; otherwise the name must hold a `.` and the piece
/// after its last `.`, lowercased, must be one of the tokens.  A name
/// with no `.` passes only when no filter was requested.
pub open spec fn suffix_match(name: Seq<char>, suffix: Seq<char>) -> bool {
    if suffix.len() == 0 {
        true
    } else if has_dot(name) {
        suffix_tokens(suffix).contains(lower_of(ext_of(name)))
    } else {
        false
    }
}

/// The whole predicate: a directory never matches a file-only query, and
/// otherwise the name and suffix criteria must both hold.
pub open spec fn match_spec(e: EntryV, args: Argument) -> bool {
    &&& !(args.file_only && e.is_dir)
    &&& name_match(e.name, args)
    &&& suffix_match(e.name, args.suffix@)
}

/// The name criterion, computed.
fn name_match_exec(name: &String, args: &Argument) -> (r: bool)
    ensures
        r == name_match(name@, *args),
{
    if args.strict_mode {
        if args.case_miss {
            let a = lower_str(name.as_str());
            let b = lower_str(args.name.as_str());
            a.eq(&b)
        } else {
            name.eq(&args.name)
        }
    } else {
        if args.case_miss {
            let a = lower_str(name.as_str());
            let b = lower_str(args.name.as_str());
            contains_chars(&chars_of(a.as_str()), &chars_of(b.as_str()))
        } else {
            contains_chars(&chars_of(name.as_str()), &chars_of(args.name.as_str()))
        }
    }
}

/// The suffix filter's tokens, computed.
fn suffix_token_vec(suffix: &str) -> (r: Vec<String>)
    ensures
        r.deep_view() == suffix_tokens(suffix@),
{
    let pieces = split_commas_str(suffix);
    let mut r: Vec<String> = Vec::new();
    proof {
        assert(r.deep_view() =~~= suffix_tokens(suffix@).take(0));
    }
    let mut k: usize = 0;
    while k < pieces.len()
        invariant
            k <= pieces@.len(),
            pieces.deep_view() == split_commas(suffix@),
            r.deep_view() == suffix_tokens(suffix@).take(k as int),
        decreases pieces@.len() - k,
    {
        let t = lower_str(trim_str(pieces[k].as_str()));
        let ghost r0 = r.deep_view();
        r.push(t);
        proof {
            assert(pieces@[k as int]@ == split_commas(suffix@)[k as int]);
            assert(r.deep_view() =~~= r0.push(lower_of(trim_of(split_commas(suffix@)[k as int]))));
            assert(suffix_tokens(suffix@).take(k + 1 as int) =~~= suffix_tokens(
                suffix@,
            ).take(k as int).push(suffix_tokens(suffix@)[k as int]));
            assert(r.deep_view() =~~= suffix_tokens(suffix@).take(k + 1 as int));
        }
        k += 1;
    }
    proof {
        assert(suffix_tokens(suffix@).take(pieces@.len() as int) =~~= suffix_tokens(suffix@));
    }
    r
}

/// Membership of a character sequence among the tokens.
fn token_member(tokens: &Vec<String>, x: &String) -> (r: bool)
    ensures
        r == tokens.deep_view().contains(x@),
{
    let mut k: usize = 0;
    while k < tokens.len()
        invariant
            k <= tokens@.len(),
            forall|j: int| 0 <= j < k ==> tokens.deep_view()[j] != x@,
        decreases tokens@.len() - k,
    {
        if tokens[k].eq(x) {
            proof {
                assert(tokens.deep_view().contains(x@)) by {
                    assert(tokens.deep_view()[k as int] == x@);
                }
            }
            return true;
        }
        k += 1;
    }
    proof {
        if tokens.deep_view().contains(x@) {
            let j = choose|j: int|
                0 <= j < tokens.deep_view().len() && tokens.deep_view()[j] == x@;
            assert(tokens.deep_view()[j] != x@);
        }
    }
    false
}

/// The suffix criterion, computed.
fn suffix_match_exec(name: &String, suffix: &String) -> (r: bool)
    ensures
        r == suffix_match(name@, suffix@),
{
    let sn: usize = suffix.as_str().unicode_len();
    if sn == 0 {
        return true;
    }
    let name_chars = chars_of(name.as_str());
    let d = find_last_dot(&name_chars);
    if d == name_chars.len() {
        proof {
            lemma_last_dot(name@);
        }
        return false;
    }
    proof {
        lemma_last_dot(name@);
        assert(has_dot(name@)) by {
            if !has_dot(name@) {
                assert(d as int == name@.len() as int);
            }
        }
    }
    let n: usize = name.as_str().unicode_len();
    let ext_str = name.as_str().substring_char(d + 1, n);
    let ext_lower = lower_str(ext_str);
    let tokens = suffix_token_vec(suffix.as_str());
    proof {
        assert(ext_str@ == ext_of(name@));
    }
    token_member(&tokens, &ext_lower)
}

/// Decides whether one entry satisfies the search arguments.
pub fn do_search_item(entry: &Entry, args: &Argument) -> (r: bool)
    ensures
        r == match_spec(entry@, *args),
{
    if args.file_only && entry.is_dir {
        return false;
    }
    if !name_match_exec(&entry.name, args) {
        return false;
    }
    suffix_match_exec(&entry.name, &args.suffix)
}

/// An empty suffix argument requests no filter: it excludes no name,
/// whatever its extension, and names with no `.` as well.
pub proof fn lemma_empty_suffix_never_excludes(name: Seq<char>)
    ensures
        suffix_match(name, Seq::<char>::empty()),
{
}

} // verus!
