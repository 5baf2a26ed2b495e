//! Heuristic path guesses: candidate target labels derived from the
//! package-path shape of a dotted class name.

use vstd::prelude::*;
use vstd::string::StrSliceExecFns;

use crate::text::join_spec;
use crate::text::join_with;
use crate::text::split_on_char;
use crate::text::split_spec;

verus! {

/// Whether a character has the Unicode uppercase property; the meaning of
/// `char::is_uppercase`.
pub uninterp spec fn char_uppercase(c: char) -> bool;

/// Relies on char::is_uppercase: the answer depends on the character
/// alone, and the ASCII letters are classified as their case says.
pub assume_specification[ char::is_uppercase ](c: char) -> (r: bool)
    ensures
        r == char_uppercase(c),
        'A' <= c && c <= 'Z' ==> r,
        'a' <= c && c <= 'z' ==> !r,
;

/// Whether a path section opens with an uppercase letter, the heuristic
/// sign that it names a class rather than a package.
pub open spec fn section_is_classlike(sec: Seq<char>) -> bool {
    sec.len() > 0 && char_uppercase(sec[0])
}

/// Index of the first class-like section, or `secs.len()` without one.
pub open spec fn first_classlike(secs: Seq<Seq<char>>, from: int) -> int
    decreases secs.len() - from,
{
    if from < 0 || from >= secs.len() {
        secs.len() as int
    } else if section_is_classlike(secs[from]) {
        from
    } else {
        first_classlike(secs, from + 1)
    }
}

proof fn lemma_first_classlike(secs: Seq<Seq<char>>, from: int)
    requires
        0 <= from <= secs.len(),
    ensures
        from <= first_classlike(secs, from) <= secs.len(),
        first_classlike(secs, from) < secs.len() ==> section_is_classlike(
            secs[first_classlike(secs, from)],
        ),
        forall|j: int| from <= j < first_classlike(secs, from) ==> !section_is_classlike(secs[j]),
    decreases secs.len() - from,
{
    if from < secs.len() && !section_is_classlike(secs[from]) {
        lemma_first_classlike(secs, from + 1);
    }
}

/// The package sections of a class name: its dot-separated sections up to
/// the first one that looks like a class name.
pub open spec fn package_sections(s: Seq<char>) -> Seq<Seq<char>> {
    let secs = split_spec(s, '.');
    secs.take(first_classlike(secs, 0))
}

/// The guessed source roots, in the order they are proposed.
pub open spec fn guess_flavors() -> Seq<Seq<char>> {
    seq!["//src/main/scala/"@, "//src/main/java/"@]
}

/// The path guesses for a class name: none when at most three package
/// sections remain, else one guess per flavor rooted at the slash-joined
/// package path.
pub open spec fn guesses_spec(s: Seq<char>) -> Seq<Seq<char>> {
    let kept = package_sections(s);
    if kept.len() <= 3 {
        Seq::empty()
    } else {
        let joined = join_spec(kept, seq!['/']);
        guess_flavors().map_values(|f: Seq<char>| f + joined)
    }
}

/// Proposes candidate labels for a class name from its package-path
/// shape, one per supported source-tree flavor.
pub fn get_guesses_for_class_name(class_name: &str) -> (r: Vec<String>)
    ensures
        r.deep_view() == guesses_spec(class_name@),
{
    let mut sections = split_on_char(class_name, '.');
    let n = sections.len();
    let ghost secs = sections.deep_view();
    let mut idx: usize = 0;
    let mut found = false;
    while idx < n && !found
        invariant
            0 <= idx <= n,
            n == secs.len(),
            sections.deep_view() == secs,
            forall|j: int| 0 <= j < idx ==> !section_is_classlike(secs[j]),
            found ==> idx < n && section_is_classlike(secs[idx as int]),
            !found ==> forall|j: int| 0 <= j < idx ==> !section_is_classlike(secs[j]),
        decreases n - idx + (if found {
            0int
        } else {
            1int
        }),
    {
        let sec = &sections[idx];
        if sec.as_str().unicode_len() > 0 && sec.as_str().get_char(0).is_uppercase() {
            found = true;
        } else {
            idx = idx + 1;
        }
    }
    proof {
        lemma_first_classlike(secs, 0);
        if found {
            assert(first_classlike(secs, 0) == idx);
        } else {
            assert(first_classlike(secs, 0) == secs.len());
        }
    }
    if found {
        sections.truncate(idx);
        proof {
            assert(sections.deep_view() =~= secs.take(idx as int));
        }
    } else {
        proof {
            assert(sections.deep_view() =~= secs.take(secs.len() as int));
        }
    }
    if sections.len() <= 3 {
        let empty: Vec<String> = Vec::new();
        proof {
            assert(empty.deep_view() =~= guesses_spec(class_name@));
        }
        return empty;
    }
    let slash: &str = "/";
    let joined = join_with(&sections, slash);
    let scala_root: &str = "//src/main/scala/";
    let java_root: &str = "//src/main/java/";
    let mut out: Vec<String> = Vec::new();
    out.push(crate::text::concat2(scala_root, joined.as_str()));
    out.push(crate::text::concat2(java_root, joined.as_str()));
    proof {
        reveal_strlit("/");
        assert(slash@ =~= seq!['/']);
        assert(out.deep_view() =~= guesses_spec(class_name@));
    }
    out
}

} // verus!
