use vstd::prelude::*;
use crate::text::chars_of;

verus! {

/// What std's `str::to_lowercase` makes of a string (Unicode lowercase
/// mapping, which takes tables to state).
pub uninterp spec fn lowercase(s: Seq<char>) -> Seq<char>;

/// Lowercases a string with std's `str::to_lowercase`.
/// Claimed: the result is [`lowercase`] of the argument.
#[verifier::external_body]
fn to_lowercase(s: &str) -> (lower: String)
    ensures
        lower@ == lowercase(s@),
{
    s.to_lowercase()
}

/// `prefix` is a prefix of `s`.
pub open spec fn is_prefix(prefix: Seq<char>, s: Seq<char>) -> bool {
    prefix.len() <= s.len() && s.subrange(0, prefix.len() as int) == prefix
}

fn chars_equal(a: &Vec<char>, b: &Vec<char>) -> (equal: bool)
    ensures
        equal == (a@ == b@),
{
    if a.len() != b.len() {
        return false;
    }
    let mut i: usize = 0;
    while i < a.len()
        invariant
            a@.len() == b@.len(),
            i <= a@.len(),
            forall|j: int| 0 <= j < i ==> a@[j] == b@[j],
        decreases a@.len() - i,
    {
        if a[i] != b[i] {
            return false;
        }
        i = i + 1;
    }
    proof {
        assert(a@ =~= b@);
    }
    true
}

fn starts_with(s: &Vec<char>, prefix: &Vec<char>) -> (starts: bool)
    ensures
        starts == is_prefix(prefix@, s@),
{
    if prefix.len() > s.len() {
        return false;
    }
    let mut i: usize = 0;
    while i < prefix.len()
        invariant
            prefix@.len() <= s@.len(),
            i <= prefix@.len(),
            forall|j: int| 0 <= j < i ==> s@[j] == prefix@[j],
        decreases prefix@.len() - i,
    {
        if s[i] != prefix[i] {
            proof {
                assert(s@.subrange(0, prefix@.len() as int)[i as int] != prefix@[i as int]);
            }
            return false;
        }
        i = i + 1;
    }
    proof {
        assert(s@.subrange(0, prefix@.len() as int) =~= prefix@);
    }
    true
}

/// Completes a typed entry type name, as the entry editor does when the
/// name field loses focus. A name that is exactly one of `names` stays as it
/// is (`None`). Otherwise a name equal to it up to case is taken; otherwise,
/// when the lowercase names that begin with its lowercase are all the same
/// one, a name of that lowercase is taken; otherwise nothing changes.
pub fn complete_entry_type_name(entered: &str, names: &Vec<String>) -> (completed: Option<String>)
    ensures
        (exists|i: int| 0 <= i < names@.len() && names@[i]@ == entered@) ==> completed is None,
        completed matches Some(name) ==> {
            &&& exists|i: int| 0 <= i < names@.len() && names@[i]@ == name@
            &&& (exists|i: int| 0 <= i < names@.len() && lowercase(#[trigger] names@[i]@) == lowercase(entered@))
                ==> lowercase(name@) == lowercase(entered@)
            &&& !(exists|i: int| 0 <= i < names@.len() && lowercase(#[trigger] names@[i]@) == lowercase(entered@))
                ==> {
                &&& is_prefix(lowercase(entered@), lowercase(name@))
                &&& forall|i: int|
                    0 <= i < names@.len() && is_prefix(lowercase(entered@), lowercase(#[trigger] names@[i]@))
                        ==> lowercase(names@[i]@) == lowercase(name@)
            }
        },
        completed is None && !(exists|i: int| 0 <= i < names@.len() && names@[i]@ == entered@) ==> {
            &&& !exists|i: int| 0 <= i < names@.len() && lowercase(#[trigger] names@[i]@) == lowercase(entered@)
            &&& ((forall|i: int|
                0 <= i < names@.len() ==> !is_prefix(lowercase(entered@), lowercase(#[trigger] names@[i]@)))
                || exists|i: int, j: int|
                0 <= i < names@.len() && 0 <= j < names@.len() && is_prefix(
                    lowercase(entered@),
                    lowercase(#[trigger] names@[i]@),
                ) && is_prefix(lowercase(entered@), lowercase(#[trigger] names@[j]@)) && lowercase(names@[i]@)
                    != lowercase(names@[j]@))
        },
{
    let entered_string = String::from_str(entered);
    let mut k: usize = 0;
    while k < names.len()
        invariant
            k <= names@.len(),
            entered_string@ == entered@,
            forall|j: int| 0 <= j < k ==> names@[j]@ != entered@,
        decreases names@.len() - k,
    {
        let same: bool = names[k] == entered_string;
        if same {
            proof {
                assert(names@[k as int]@ == entered@);
            }
            return None;
        }
        k = k + 1;
    }
    let lower = chars_of(to_lowercase(entered).as_str());
    let ghost lw = lowercase(entered@);
    let mut lowered: Vec<Vec<char>> = Vec::new();
    let mut i: usize = 0;
    while i < names.len()
        invariant
            i <= names@.len(),
            forall|j: int| 0 <= j < names@.len() ==> names@[j]@ != entered@,
            lowered@.len() == i,
            forall|j: int| 0 <= j < i ==> (#[trigger] lowered@[j])@ == lowercase(names@[j]@),
        decreases names@.len() - i,
    {
        lowered.push(chars_of(to_lowercase(names[i].as_str()).as_str()));
        i = i + 1;
    }
    // A name equal up to case.
    let mut e: usize = 0;
    while e < names.len()
        invariant
            e <= names@.len(),
            lowered@.len() == names@.len(),
            lower@ == lw,
            lw == lowercase(entered@),
            forall|j: int| 0 <= j < names@.len() ==> names@[j]@ != entered@,
            forall|j: int| 0 <= j < names@.len() ==> (#[trigger] lowered@[j])@ == lowercase(names@[j]@),
            forall|j: int| 0 <= j < e ==> lowercase(#[trigger] names@[j]@) != lw,
        decreases names@.len() - e,
    {
        let same = chars_equal(&lowered[e], &lower);
        if same {
            let name = names[e].clone();
            proof {
                assert(lowered@[e as int]@ == lw);
                assert(names@[e as int]@ == name@);
            }
            return Some(name);
        }
        e = e + 1;
    }
    // The lowercase names that begin with the lowercase of the entered one.
    let mut found: Option<usize> = None;
    let mut p: usize = 0;
    while p < names.len()
        invariant
            p <= names@.len(),
            lowered@.len() == names@.len(),
            lower@ == lw,
            lw == lowercase(entered@),
            forall|j: int| 0 <= j < names@.len() ==> names@[j]@ != entered@,
            forall|j: int| 0 <= j < names@.len() ==> (#[trigger] lowered@[j])@ == lowercase(names@[j]@),
            forall|j: int| 0 <= j < names@.len() ==> lowercase(#[trigger] names@[j]@) != lw,
            match found {
                Some(c) => c < p && is_prefix(lw, lowercase(names@[c as int]@)) && forall|j: int|
                    0 <= j < p && is_prefix(lw, lowercase(#[trigger] names@[j]@)) ==> lowercase(names@[j]@)
                        == lowercase(names@[c as int]@),
                None => forall|j: int| 0 <= j < p ==> !is_prefix(lw, lowercase(#[trigger] names@[j]@)),
            },
        decreases names@.len() - p,
    {
        if starts_with(&lowered[p], &lower) {
            match found {
                Some(c) => {
                    let same = chars_equal(&lowered[p], &lowered[c]);
                    if !same {
                        proof {
                            assert(is_prefix(lw, lowercase(names@[p as int]@)));
                            assert(is_prefix(lw, lowercase(names@[c as int]@)));
                            assert(lowercase(names@[p as int]@) != lowercase(names@[c as int]@));
                            assert(!(forall|i: int|
                                0 <= i < names@.len() ==> !is_prefix(lw, lowercase(#[trigger] names@[i]@))));
                        }
                        return None;
                    }
                },
                None => {
                    found = Some(p);
                },
            }
        }
        p = p + 1;
    }
    match found {
        Some(c) => {
            let name = names[c].clone();
            proof {
                assert(names@[c as int]@ == name@);
            }
            Some(name)
        },
        None => None,
    }
}

} // verus!
