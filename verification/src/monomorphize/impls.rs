use vstd::prelude::*;

use crate::ast::{AssociatedTypeDef, ImplDecl, Item, TypeRef};
use crate::monomorphize::types::{spec_type_name, type_ref_name};

verus! {

/// Whether `pattern` occurs in `text` at position `i`.
pub open spec fn occurs_at(text: Seq<char>, pattern: Seq<char>, i: int) -> bool {
    0 <= i && i + pattern.len() <= text.len() && text.subrange(i, i + pattern.len()) == pattern
}

/// The first position at which `pattern` occurs in `text`.
pub open spec fn first_occurrence(text: Seq<char>, pattern: Seq<char>) -> Option<int> {
    if exists|i: int| #[trigger] occurs_at(text, pattern, i) {
        Some(choose|i: int| #[trigger] occurs_at(text, pattern, i) && forall|j: int| 0 <= j < i ==> !occurs_at(text, pattern, j))
    } else {
        None
    }
}

/// Where `pattern` first occurs in `text`, if it does.
pub fn find_text(text: &str, pattern: &str) -> (found: Option<usize>)
    ensures
        match found {
            Some(i) => occurs_at(text@, pattern@, i as int) && forall|j: int| 0 <= j < i ==> !occurs_at(text@, pattern@, j),
            None => forall|j: int| !occurs_at(text@, pattern@, j),
        },
        found matches Some(i) ==> first_occurrence(text@, pattern@) == Some(i as int),
        found is None ==> first_occurrence(text@, pattern@) is None,
{
    let n = text.unicode_len();
    let m = pattern.unicode_len();
    if m > n {
        return None;
    }
    let mut i: usize = 0;
    while i <= n - m
        invariant
            n == text@.len(),
            m == pattern@.len(),
            m <= n,
            i <= n - m + 1,
            forall|j: int| 0 <= j < i ==> !occurs_at(text@, pattern@, j),
        decreases n - m + 1 - i,
    {
        let mut same = true;
        let mut k: usize = 0;
        while k < m
            invariant
                n == text@.len(),
                m == pattern@.len(),
                i + m <= n,
                k <= m,
                same == forall|l: int| 0 <= l < k ==> text@[i + l] == pattern@[l],
            decreases m - k,
        {
            if text.get_char(i + k) != pattern.get_char(k) {
                same = false;
            }
            k = k + 1;
        }
        if same {
            assert(text@.subrange(i as int, i + m) =~= pattern@);
            proof {
                assert(occurs_at(text@, pattern@, i as int));
                let c = choose|c: int| #[trigger] occurs_at(text@, pattern@, c) && forall|j: int| 0 <= j < c ==> !occurs_at(text@, pattern@, j);
                if c < i {
                } else if c > i {
                    assert(!occurs_at(text@, pattern@, i as int));
                }
            }
            return Some(i);
        }
        proof {
            if occurs_at(text@, pattern@, i as int) {
                let l = choose|l: int| 0 <= l < m && text@[i + l] != pattern@[l];
                assert(text@.subrange(i as int, i + m)[l] == text@[i + l]);
            }
        }
        i = i + 1;
    }
    proof {
        assert forall|j: int| !occurs_at(text@, pattern@, j) by {
            if j > n - m {
            }
        }
    }
    None
}

/// Where an associated type of the impl is first bound in the trait's text:
/// the position of `<type X: ` (not after another binding), else of `, type X: `
/// (after another one).
pub open spec fn binding_marker(name: Seq<char>, associated: AssociatedTypeDef) -> Option<(int, bool)> {
    match first_occurrence(name, "<type "@ + associated.name@ + ": "@) {
        Some(i) => Some((i, false)),
        None => match first_occurrence(name, ", type "@ + associated.name@ + ": "@) {
            Some(i) => Some((i, true)),
            None => None,
        },
    }
}

/// The earliest marker among the first `n` associated types; on a tie, the
/// first of them.
pub open spec fn earliest_marker(name: Seq<char>, associated: Seq<AssociatedTypeDef>, n: int) -> Option<(int, bool)>
    decreases n,
{
    if n <= 0 || n > associated.len() {
        None
    } else {
        let earlier = earliest_marker(name, associated, n - 1);
        match binding_marker(name, associated[n - 1]) {
            Some(m) => match earlier {
                Some(e) => if m.0 < e.0 {
                    Some(m)
                } else {
                    Some(e)
                },
                None => Some(m),
            },
            None => earlier,
        }
    }
}

/// The name of an impl's trait without the bindings of the impl's own
/// associated types: the text up to the first of them, closed with `>` when
/// other arguments come before it.
pub open spec fn spec_identity_name(item: ImplDecl) -> Seq<char> {
    let name = spec_type_name(item.trait_ref);
    match earliest_marker(name, item.associated_types@, item.associated_types@.len() as int) {
        Some((index, true)) => name.take(index) + ">"@,
        Some((index, false)) => name.take(index),
        None => name,
    }
}

/// The name of the trait that an impl implements, without the bindings that
/// its own associated types give (see `spec_identity_name`).
pub fn impl_trait_identity_name(item: &ImplDecl) -> (identity: String)
    ensures
        identity@ == spec_identity_name(*item),
{
    let name = type_ref_name(&item.trait_ref);
    let mut marker: Option<(usize, bool)> = None;
    let mut i: usize = 0;
    while i < item.associated_types.len()
        invariant
            i <= item.associated_types@.len(),
            name@ == spec_type_name(item.trait_ref),
            match marker {
                Some((index, later)) => earliest_marker(name@, item.associated_types@, i as int) == Some((index as int, later))
                    && index <= name@.len(),
                None => earliest_marker(name@, item.associated_types@, i as int) is None,
            },
        decreases item.associated_types.len() - i,
    {
        let associated = &item.associated_types[i];
        let mut first = String::from_str("<type ");
        first.append(associated.name.as_str());
        first.append(": ");
        let found = match find_text(name.as_str(), first.as_str()) {
            Some(index) => Some((index, false)),
            None => {
                let mut later = String::from_str(", type ");
                later.append(associated.name.as_str());
                later.append(": ");
                match find_text(name.as_str(), later.as_str()) {
                    Some(index) => Some((index, true)),
                    None => None,
                }
            },
        };
        proof {
            reveal_strlit("<type ");
            reveal_strlit(", type ");
            reveal_strlit(": ");
        }
        assert(match found {
            Some((index, later)) => binding_marker(name@, item.associated_types@[i as int]) == Some((index as int, later)),
            None => binding_marker(name@, item.associated_types@[i as int]) is None,
        });
        if let Some((index, later)) = found {
            marker = match marker {
                Some((current, current_later)) => if index < current {
                    Some((index, later))
                } else {
                    Some((current, current_later))
                },
                None => Some((index, later)),
            };
        }
        i = i + 1;
    }
    match marker {
        Some((index, true)) => {
            let mut identity = String::from_str(name.as_str().substring_char(0, index));
            identity.append(">");
            proof {
                reveal_strlit(">");
            }
            identity
        },
        Some((index, false)) => String::from_str(name.as_str().substring_char(0, index)),
        None => name,
    }
}

/// Whether `text` contains `pattern` somewhere.
pub open spec fn contains_text(text: Seq<char>, pattern: Seq<char>) -> bool {
    exists|i: int| #[trigger] occurs_at(text, pattern, i)
}

/// Whether an impl implements `trait_name` for `self_name`: its trait has that
/// name, or, when the requested trait binds no associated type, that name
/// without the impl's own bindings.
pub open spec fn impl_matches(item: ImplDecl, trait_name: Seq<char>, self_name: Seq<char>) -> bool {
    let trait_matches = spec_type_name(item.trait_ref) == trait_name || (!contains_text(trait_name, "<type "@)
        && !contains_text(trait_name, ", type "@) && spec_identity_name(item) == trait_name);
    trait_matches && spec_type_name(item.type_ref) == self_name
}

/// Whether some impl among `items` implements `trait_ref` for `type_ref`
/// (see `impl_matches`).
pub fn concrete_impl_exists(items: &Vec<Item>, trait_ref: &TypeRef, type_ref: &TypeRef) -> (exists: bool)
    ensures
        exists == exists|i: int|
            0 <= i < items@.len() && (#[trigger] items@[i] matches Item::Impl(d) && impl_matches(
                d,
                spec_type_name(*trait_ref),
                spec_type_name(*type_ref),
            )),
{
    let trait_name = type_ref_name(trait_ref);
    let self_type_name = type_ref_name(type_ref);
    let binds = find_text(trait_name.as_str(), "<type ").is_some() || find_text(trait_name.as_str(), ", type ").is_some();
    let mut i: usize = 0;
    while i < items.len()
        invariant
            i <= items@.len(),
            trait_name@ == spec_type_name(*trait_ref),
            self_type_name@ == spec_type_name(*type_ref),
            binds == (contains_text(trait_name@, "<type "@) || contains_text(trait_name@, ", type "@)),
            forall|j: int|
                0 <= j < i ==> !(#[trigger] items@[j] matches Item::Impl(d) && impl_matches(
                    d,
                    trait_name@,
                    self_type_name@,
                )),
        decreases items.len() - i,
    {
        if let Item::Impl(decl) = &items[i] {
            let candidate = type_ref_name(&decl.trait_ref);
            let trait_matches = candidate.eq(&trait_name) || (!binds && impl_trait_identity_name(decl).eq(
                &trait_name,
            ));
            if trait_matches && type_ref_name(&decl.type_ref).eq(&self_type_name) {
                assert(impl_matches(*decl, trait_name@, self_type_name@));
                return true;
            }
        }
        i = i + 1;
    }
    false
}

} // verus!
