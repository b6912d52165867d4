use vstd::prelude::*;
use crate::text::{decimal, find_last_char, lemma_decimal_injective, lemma_decimal_nonempty, lemma_last_index_of, last_index_of, push_char, push_decimal, same_text};

verus! {

/// The texts of a list of names.
pub open spec fn name_views(names: Seq<String>) -> Seq<Seq<char>> {
    names.map_values(|n: String| n@)
}

/// The name tried at a given attempt when looking for a free name.
///
/// Attempt 0 is the desired name itself. Attempt `k >= 1` inserts `_` and the
/// counter `k + 1` in front of the extension (the part from the last `.`), or
/// appends them when the name has no `.`: `notes.txt` becomes `notes_2.txt`,
/// `notes_3.txt`, ...; `folder` becomes `folder_2`, `folder_3`, ...
pub open spec fn candidate_name(original: Seq<char>, attempt: nat) -> Seq<char> {
    if attempt == 0 {
        original
    } else {
        let tag = seq!['_'] + decimal(attempt + 1);
        match last_index_of(original, '.') {
            Some(d) => original.subrange(0, d) + tag + original.subrange(d, original.len() as int),
            None => original + tag,
        }
    }
}

/// `attempt` is the first attempt whose name is not taken.
pub open spec fn is_first_free_attempt(original: Seq<char>, taken: Seq<Seq<char>>, attempt: nat) -> bool {
    &&& !taken.contains(candidate_name(original, attempt))
    &&& forall|j: nat| j < attempt ==> taken.contains(#[trigger] candidate_name(original, j))
}

proof fn lemma_candidate_len(original: Seq<char>, attempt: nat)
    requires
        attempt >= 1,
    ensures
        candidate_name(original, attempt).len() == original.len() + 1 + decimal(attempt + 1).len(),
{
    lemma_last_index_of(original, '.');
}

/// Different attempts never produce the same name.
pub proof fn lemma_candidate_injective(original: Seq<char>, i: nat, j: nat)
    requires
        candidate_name(original, i) == candidate_name(original, j),
    ensures
        i == j,
{
    if i == 0 && j == 0 {
    } else if i == 0 {
        lemma_candidate_len(original, j);
        lemma_decimal_nonempty(j + 1);
    } else if j == 0 {
        lemma_candidate_len(original, i);
        lemma_decimal_nonempty(i + 1);
    } else {
        lemma_candidate_len(original, i);
        lemma_candidate_len(original, j);
        lemma_last_index_of(original, '.');
        let di = decimal(i + 1);
        let dj = decimal(j + 1);
        assert(di.len() == dj.len());
        let start: int = match last_index_of(original, '.') {
            Some(d) => d + 1,
            None => original.len() as int + 1,
        };
        let ci = candidate_name(original, i);
        let cj = candidate_name(original, j);
        assert(ci.subrange(start, start + di.len()) =~= di);
        assert(cj.subrange(start, start + dj.len()) =~= dj);
        lemma_decimal_injective(i + 1, j + 1);
    }
}

fn push_str_chars(out: &mut String, s: &str)
    ensures
        final(out)@ == old(out)@ + s@,
{
    out.append(s);
}

/// The name tried at `attempt`; see `candidate_name`.
pub fn candidate_for(original: &str, attempt: u64) -> (res: String)
    ensures
        res@ == candidate_name(original@, attempt as nat),
{
    if attempt == 0 {
        return String::from_str(original);
    }
    let n = original.unicode_len();
    let dot = find_last_char(original, '.');
    let mut out = String::new();
    match dot {
        Some(d) => {
            proof { lemma_last_index_of(original@, '.'); }
            push_str_chars(&mut out, original.substring_char(0, d));
            push_char(&mut out, '_');
            push_decimal(&mut out, attempt as u128 + 1);
            push_str_chars(&mut out, original.substring_char(d, n));
            assert(out@ =~= candidate_name(original@, attempt as nat));
        },
        None => {
            push_str_chars(&mut out, original);
            push_char(&mut out, '_');
            push_decimal(&mut out, attempt as u128 + 1);
            assert(out@ =~= candidate_name(original@, attempt as nat));
        },
    }
    out
}

/// Whether one of `names` has the text of `s`.
pub fn contains_name(names: &Vec<String>, s: &str) -> (res: bool)
    ensures
        res == name_views(names@).contains(s@),
{
    let mut i: usize = 0;
    while i < names.len()
        invariant
            i <= names.len(),
            forall|j: int| 0 <= j < i ==> names@[j]@ != s@,
        decreases names.len() - i,
    {
        if same_text(names[i].as_str(), s) {
            assert(name_views(names@)[i as int] == s@);
            return true;
        }
        i = i + 1;
    }
    proof {
        if name_views(names@).contains(s@) {
            let k = choose|k: int| 0 <= k < name_views(names@).len() && name_views(names@)[k] == s@;
            assert(names@[k]@ == s@);
        }
    }
    false
}

/// The first free name for `original_name` among siblings whose names are
/// `taken`: the desired name itself when it is free, otherwise the first of
/// `base_2.ext`, `base_3.ext`, ... (or `name_2`, `name_3`, ... without an
/// extension) that is free.
pub fn generate_unique_name(original_name: &str, taken: &Vec<String>) -> (res: String)
    ensures
        exists|k: nat| #[trigger] candidate_name(original_name@, k) == res@
            && is_first_free_attempt(original_name@, name_views(taken@), k),
{
    let ghost views = name_views(taken@);
    let ghost all = views.to_set();
    proof {
        views.lemma_cardinality_of_set();
    }
    let total = taken.len();
    let mut attempt: u64 = 0;
    let mut name = candidate_for(original_name, 0);
    let ghost mut remaining = all;
    while contains_name(taken, name.as_str())
        invariant
            views == name_views(taken@),
            total == taken@.len(),
            all == views.to_set(),
            all.finite(),
            all.len() <= views.len() == taken@.len(),
            remaining.finite(),
            name@ == candidate_name(original_name@, attempt as nat),
            attempt + remaining.len() == all.len(),
            forall|x: Seq<char>| #[trigger] remaining.contains(x) <==> (views.contains(x)
                && forall|j: nat| j < attempt ==> x != candidate_name(original_name@, j)),
            forall|j: nat| j < attempt ==> views.contains(#[trigger] candidate_name(original_name@, j)),
        decreases remaining.len(),
    {
        proof {
            assert forall|j: nat| j < attempt implies name@ != candidate_name(original_name@, j) by {
                if name@ == candidate_name(original_name@, j) {
                    lemma_candidate_injective(original_name@, attempt as nat, j);
                }
            }
            assert(remaining.contains(name@));
            vstd::set_lib::lemma_set_empty_equivalency_len(remaining);
            assert(remaining.len() >= 1);
            assert(attempt < all.len());
            remaining = remaining.remove(name@);
        }
        attempt = attempt + 1;
        name = candidate_for(original_name, attempt);
    }
    name
}

/// The name tried at a given attempt by the graph view when it places a new
/// node: the name itself, then the name with `1`, `2`, ... appended.
pub open spec fn counted_name(name: Seq<char>, attempt: nat) -> Seq<char> {
    if attempt == 0 {
        name
    } else {
        name + decimal(attempt)
    }
}

/// The name has a `.` after its first character (so a path ending in it has
/// an extension, or is `..`).
pub open spec fn has_inner_dot(name: Seq<char>) -> bool {
    exists|i: int| 1 <= i < name.len() && name[i] == '.'
}

/// Different attempts never produce the same counted name.
pub proof fn lemma_counted_injective(name: Seq<char>, i: nat, j: nat)
    requires
        counted_name(name, i) == counted_name(name, j),
    ensures
        i == j,
{
    if i != 0 && j != 0 {
        let a = counted_name(name, i);
        assert(a.subrange(name.len() as int, a.len() as int) =~= decimal(i));
        let b = counted_name(name, j);
        assert(b.subrange(name.len() as int, b.len() as int) =~= decimal(j));
        lemma_decimal_injective(i, j);
    } else if i != 0 {
        lemma_decimal_nonempty(i);
    } else if j != 0 {
        lemma_decimal_nonempty(j);
    }
}

/// The name a new node of the graph view takes: the first of `name`,
/// `name1`, `name2`, ... that is not `taken` (by a context file or an entry
/// on disk). A taken name with an extension is refused, as the counter
/// would change the extension.
pub fn valid_node_name(name: &str, taken: &Vec<String>) -> (res: String)
    requires
        !(name_views(taken@).contains(name@) && has_inner_dot(name@)),
    ensures
        exists|k: nat| #[trigger] counted_name(name@, k) == res@
            && !name_views(taken@).contains(res@)
            && forall|j: nat| j < k ==> name_views(taken@).contains(#[trigger] counted_name(name@, j)),
{
    let ghost views = name_views(taken@);
    let ghost all = views.to_set();
    proof {
        views.lemma_cardinality_of_set();
    }
    let total = taken.len();
    let mut attempt: u64 = 0;
    let mut candidate = String::from_str(name);
    let ghost mut remaining = all;
    while contains_name(taken, candidate.as_str())
        invariant
            total == taken@.len(),
            views == name_views(taken@),
            all == views.to_set(),
            all.finite(),
            all.len() <= views.len() == taken@.len(),
            remaining.finite(),
            candidate@ == counted_name(name@, attempt as nat),
            attempt + remaining.len() == all.len(),
            forall|x: Seq<char>| #[trigger] remaining.contains(x) <==> (views.contains(x)
                && forall|j: nat| j < attempt ==> x != counted_name(name@, j)),
            forall|j: nat| j < attempt ==> views.contains(#[trigger] counted_name(name@, j)),
        decreases remaining.len(),
    {
        proof {
            assert forall|j: nat| j < attempt implies candidate@ != counted_name(name@, j) by {
                if candidate@ == counted_name(name@, j) {
                    lemma_counted_injective(name@, attempt as nat, j);
                }
            }
            assert(remaining.contains(candidate@));
            vstd::set_lib::lemma_set_empty_equivalency_len(remaining);
            assert(remaining.len() >= 1);
            assert(attempt < all.len());
            remaining = remaining.remove(candidate@);
        }
        attempt = attempt + 1;
        candidate = String::from_str(name);
        push_decimal(&mut candidate, attempt as u128);
    }
    candidate
}

} // verus!
