use vstd::prelude::*;
use vstd::utf8::encode_utf8;
use crate::order::{insert_sorted, sorted_texts, texts};
use crate::text::{find_last_char, has_prefix, last_index_of, lemma_last_index_of, push_char, starts_with};

verus! {

/// Number of UTF-8 bytes that encode `s` (as the `usize` that `str::len` gives).
pub open spec fn utf8_len(s: Seq<char>) -> usize {
    encode_utf8(s).len() as usize
}

/// The absolute form in which typed input is interpreted: a `/` is put in
/// front of input that does not start with one.
pub open spec fn as_absolute(input: Seq<char>) -> Seq<char> {
    if input.len() >= 1 && input[0] == '/' { input } else { seq!['/'] + input }
}

/// What to complete for the input before the cursor: the directory to list,
/// the prefix that entries must start with, and the byte offset in the input
/// from which the completion replaces text.
///
/// Empty input lists `/` and replaces from the start. Input ending in `/`
/// lists that directory and appends after the cursor. Otherwise the input
/// (made absolute) is split at its last `/`: the part up to and including
/// it is listed, the rest is the prefix, and the replacement starts after
/// the last `/` of the input as typed, or at its start when it has none.
pub open spec fn completion_plan_spec(input: Seq<char>) -> (Seq<char>, Seq<char>, usize) {
    if input.len() == 0 {
        (seq!['/'], Seq::empty(), 0)
    } else {
        let t = as_absolute(input);
        if t.last() == '/' {
            (t, Seq::empty(), utf8_len(input))
        } else {
            let k = last_index_of(t, '/')->0;
            let offset = match last_index_of(input, '/') {
                Some(j) => utf8_len(input.subrange(0, j + 1)),
                None => 0,
            };
            (t.subrange(0, k + 1), t.subrange(k + 1, t.len() as int), offset)
        }
    }
}

/// The directory to list, the prefix to match and where the completion goes.
pub struct CompletionPlan {
    pub scan_dir: String,
    pub prefix: String,
    pub offset: usize,
}

fn append_str(out: &mut String, s: &str)
    ensures
        final(out)@ == old(out)@ + s@,
{
    out.append(s);
}

/// Plans a completion for the text before the cursor; see `completion_plan_spec`.
pub fn plan_completion(input: &str) -> (res: CompletionPlan)
    ensures
        completion_plan_spec(input@) == (res.scan_dir@, res.prefix@, res.offset),
{
    let n = input.unicode_len();
    if n == 0 {
        let mut dir = String::new();
        push_char(&mut dir, '/');
        return CompletionPlan { scan_dir: dir, prefix: String::new(), offset: 0 };
    }
    let mut t = String::new();
    if input.get_char(0) != '/' {
        push_char(&mut t, '/');
    }
    append_str(&mut t, input);
    assert(t@ =~= as_absolute(input@));
    let m = t.as_str().unicode_len();
    if t.as_str().get_char(m - 1) == '/' {
        let offset = input.len();
        return CompletionPlan { scan_dir: t, prefix: String::new(), offset };
    }
    let k = match find_last_char(t.as_str(), '/') {
        Some(k) => k,
        None => {
            proof {
                lemma_last_index_of(t@, '/');
                assert(t@[0] == '/');
            }
            0
        },
    };
    proof {
        lemma_last_index_of(t@, '/');
    }
    let dir = String::from_str(t.as_str().substring_char(0, k + 1));
    let prefix = String::from_str(t.as_str().substring_char(k + 1, m));
    let offset = match find_last_char(input, '/') {
        Some(j) => {
            proof {
                lemma_last_index_of(input@, '/');
            }
            input.substring_char(0, j + 1).len()
        },
        None => 0,
    };
    CompletionPlan { scan_dir: dir, prefix, offset }
}

/// An entry of the listed directory.
pub struct DirEntryInfo {
    /// The entry's name, when it is valid UTF-8.
    pub name: Option<String>,
    /// Whether the entry is a directory, or a link that resolves to one.
    pub leads_to_directory: bool,
}

/// The completion offered for one entry: directories whose name starts with
/// the prefix, with a `/` appended; names starting with `.` only when the
/// prefix starts with `.` too.
pub open spec fn entry_candidate(e: DirEntryInfo, prefix: Seq<char>) -> Option<Seq<char>> {
    match e.name {
        Some(n) => {
            let hidden = has_prefix(n@, seq!['.']) && !has_prefix(prefix, seq!['.']);
            if !hidden && has_prefix(n@, prefix) && e.leads_to_directory {
                Some(n@.push('/'))
            } else {
                None
            }
        },
        None => None,
    }
}

/// The completions offered for the first `k` entries, in listing order.
pub open spec fn offered(entries: Seq<DirEntryInfo>, prefix: Seq<char>, k: int) -> Seq<Seq<char>>
    decreases k,
{
    if k <= 0 {
        Seq::empty()
    } else {
        let rest = offered(entries, prefix, k - 1);
        match entry_candidate(entries[k - 1], prefix) {
            Some(c) => rest.push(c),
            None => rest,
        }
    }
}

/// A text starts with `.` exactly when its first character is `.`.
proof fn lemma_dot_start(s: Seq<char>)
    ensures
        has_prefix(s, seq!['.']) <==> (s.len() >= 1 && s[0] == '.'),
{
    if s.len() >= 1 {
        if s[0] == '.' {
            assert(s.subrange(0, 1) =~= seq!['.']);
        } else if s.subrange(0, 1) == seq!['.'] {
            assert(s.subrange(0, 1)[0] == s[0]);
        }
    }
}

/// Appending `/` to a name does not change whether it starts with `.`.
proof fn lemma_dot_start_push(n: Seq<char>)
    ensures
        has_prefix(n.push('/'), seq!['.']) == has_prefix(n, seq!['.']),
{
    lemma_dot_start(n);
    lemma_dot_start(n.push('/'));
    if n.len() >= 1 {
        assert(n.push('/')[0] == n[0]);
    }
}

/// Each completion offered for the first `k` entries comes from one of
/// them, and each of them that yields a completion has it offered.
proof fn lemma_offered_members(entries: Seq<DirEntryInfo>, prefix: Seq<char>, k: int)
    requires
        0 <= k <= entries.len(),
    ensures
        forall|j: int|
            0 <= j < offered(entries, prefix, k).len() ==> exists|i: int|
                0 <= i < k && entry_candidate(#[trigger] entries[i], prefix) == Some(
                    #[trigger] offered(entries, prefix, k)[j],
                ),
        forall|i: int|
            0 <= i < k && (#[trigger] entry_candidate(entries[i], prefix)) is Some
                ==> offered(entries, prefix, k).contains(entry_candidate(entries[i], prefix)->0),
    decreases k,
{
    if k > 0 {
        lemma_offered_members(entries, prefix, k - 1);
        let rest = offered(entries, prefix, k - 1);
        let all = offered(entries, prefix, k);
        match entry_candidate(entries[k - 1], prefix) {
            Some(c) => {
                assert(all == rest.push(c));
                assert forall|j: int| 0 <= j < all.len() implies exists|i: int|
                    0 <= i < k && entry_candidate(#[trigger] entries[i], prefix) == Some(#[trigger] all[j]) by {
                    if j == rest.len() {
                        assert(entry_candidate(entries[k - 1], prefix) == Some(all[j]));
                    } else {
                        assert(all[j] == rest[j]);
                    }
                }
                assert forall|i: int|
                    0 <= i < k && (#[trigger] entry_candidate(entries[i], prefix)) is Some
                    implies all.contains(entry_candidate(entries[i], prefix)->0) by {
                    if i == k - 1 {
                        assert(all[rest.len() as int] == c);
                    } else {
                        let c2 = entry_candidate(entries[i], prefix)->0;
                        assert(rest.contains(c2));
                        let j = choose|j: int| 0 <= j < rest.len() && rest[j] == c2;
                        assert(all[j] == c2);
                    }
                }
            },
            None => {
                assert(all == rest);
            },
        }
    }
}

/// Names that start with `.` are hidden from completion unless the prefix
/// starts with `.` as well: with any other prefix, the empty one included,
/// no offered completion starts with `.`, and no entry whose name starts
/// with `.` has its completion offered.
pub proof fn lemma_hidden_entries_not_offered(entries: Seq<DirEntryInfo>, prefix: Seq<char>)
    requires
        !has_prefix(prefix, seq!['.']),
    ensures
        forall|j: int|
            0 <= j < offered(entries, prefix, entries.len() as int).len() ==> !has_prefix(
                #[trigger] offered(entries, prefix, entries.len() as int)[j],
                seq!['.'],
            ),
        forall|i: int|
            0 <= i < entries.len() && (#[trigger] entries[i]).name is Some && has_prefix(
                entries[i].name->0@,
                seq!['.'],
            ) ==> !offered(entries, prefix, entries.len() as int).contains(
                entries[i].name->0@.push('/'),
            ),
{
    let all = offered(entries, prefix, entries.len() as int);
    lemma_offered_members(entries, prefix, entries.len() as int);
    assert forall|j: int| 0 <= j < all.len() implies !has_prefix(#[trigger] all[j], seq!['.']) by {
        let i = choose|i: int|
            0 <= i < entries.len() && entry_candidate(#[trigger] entries[i], prefix) == Some(all[j]);
        lemma_dot_start_push(entries[i].name->0@);
    }
    assert forall|i: int|
        0 <= i < entries.len() && (#[trigger] entries[i]).name is Some && has_prefix(
            entries[i].name->0@,
            seq!['.'],
        ) implies !all.contains(entries[i].name->0@.push('/')) by {
        let c = entries[i].name->0@.push('/');
        lemma_dot_start_push(entries[i].name->0@);
        if all.contains(c) {
            let j = choose|j: int| 0 <= j < all.len() && all[j] == c;
            assert(!has_prefix(all[j], seq!['.']));
        }
    }
}

/// Whether `c` is the name of a listed entry followed by `/`, where that
/// entry leads to a directory, its name starts with `prefix`, and its name
/// starts with `.` only if `prefix` does too.
pub open spec fn completes_listed_directory(entries: Seq<DirEntryInfo>, prefix: Seq<char>, c: Seq<char>) -> bool {
    exists|i: int|
        #![trigger entries[i]]
        0 <= i < entries.len() && entries[i].name is Some
            && entries[i].name->0@.push('/') == c
            && entries[i].leads_to_directory
            && has_prefix(entries[i].name->0@, prefix)
            && (has_prefix(entries[i].name->0@, seq!['.']) ==> has_prefix(prefix, seq!['.']))
}

/// What any list of texts holding the offered completions, each as often
/// as they are offered, says of the entries it came from.
proof fn lemma_offered_texts(entries: Seq<DirEntryInfo>, prefix: Seq<char>, ts: Seq<Seq<char>>)
    requires
        ts.to_multiset() == offered(entries, prefix, entries.len() as int).to_multiset(),
    ensures
        forall|k: int|
            #![trigger ts[k]]
            0 <= k < ts.len() ==> completes_listed_directory(entries, prefix, ts[k]),
        forall|i: int|
            0 <= i < entries.len() && (#[trigger] entries[i]).name is Some
                && entries[i].leads_to_directory
                && has_prefix(entries[i].name->0@, prefix)
                && (has_prefix(entries[i].name->0@, seq!['.']) ==> has_prefix(prefix, seq!['.']))
                ==> ts.contains(entries[i].name->0@.push('/')),
        !has_prefix(prefix, seq!['.']) ==> forall|k: int|
            0 <= k < ts.len() ==> !has_prefix(#[trigger] ts[k], seq!['.']),
        !has_prefix(prefix, seq!['.']) ==> forall|i: int|
            0 <= i < entries.len() && (#[trigger] entries[i]).name is Some && has_prefix(
                entries[i].name->0@,
                seq!['.'],
            ) ==> !ts.contains(entries[i].name->0@.push('/')),
{
    broadcast use vstd::seq_lib::group_to_multiset_ensures;
    let all = offered(entries, prefix, entries.len() as int);
    lemma_offered_members(entries, prefix, entries.len() as int);
    assert forall|c: Seq<char>| ts.contains(c) <==> all.contains(c) by {
        assert(ts.to_multiset().count(c) == all.to_multiset().count(c));
    }
    assert forall|k: int| #![trigger ts[k]] 0 <= k < ts.len() implies completes_listed_directory(
        entries,
        prefix,
        ts[k],
    ) by {
        assert(ts.contains(ts[k]));
        let j = choose|j: int| 0 <= j < all.len() && all[j] == ts[k];
        let i = choose|i: int|
            0 <= i < entries.len() && entry_candidate(#[trigger] entries[i], prefix) == Some(all[j]);
        assert(entry_candidate(entries[i], prefix) == Some(ts[k]));
        assert(entries[i].name->0@.push('/') == ts[k]);
    }
    assert forall|i: int|
        0 <= i < entries.len() && (#[trigger] entries[i]).name is Some
            && entries[i].leads_to_directory
            && has_prefix(entries[i].name->0@, prefix)
            && (has_prefix(entries[i].name->0@, seq!['.']) ==> has_prefix(prefix, seq!['.']))
        implies ts.contains(entries[i].name->0@.push('/')) by {
        assert(entry_candidate(entries[i], prefix) == Some(entries[i].name->0@.push('/')));
    }
    if !has_prefix(prefix, seq!['.']) {
        lemma_hidden_entries_not_offered(entries, prefix);
        assert forall|k: int| 0 <= k < ts.len() implies !has_prefix(#[trigger] ts[k], seq!['.']) by {
            assert(ts.contains(ts[k]));
            let j = choose|j: int| 0 <= j < all.len() && all[j] == ts[k];
            assert(!has_prefix(all[j], seq!['.']));
        }
    }
}

/// The completions for a directory listing, in ascending order: for each
/// entry that is a directory (or leads to one) and whose name starts with
/// the prefix, its name followed by `/`; names starting with `.` only when
/// the prefix starts with `.` too (see `entry_candidate`).
pub fn completion_candidates(entries: &Vec<DirEntryInfo>, prefix: &str) -> (res: Vec<String>)
    ensures
        sorted_texts(texts(res@)),
        texts(res@).to_multiset() == offered(entries@, prefix@, entries@.len() as int).to_multiset(),
        forall|k: int|
            #![trigger texts(res@)[k]]
            0 <= k < res@.len() ==> completes_listed_directory(entries@, prefix@, texts(res@)[k]),
        forall|i: int|
            0 <= i < entries@.len() && (#[trigger] entries@[i]).name is Some
                && entries@[i].leads_to_directory
                && has_prefix(entries@[i].name->0@, prefix@)
                && (has_prefix(entries@[i].name->0@, seq!['.']) ==> has_prefix(prefix@, seq!['.']))
                ==> texts(res@).contains(entries@[i].name->0@.push('/')),
        !has_prefix(prefix@, seq!['.']) ==> forall|k: int|
            0 <= k < res@.len() ==> !has_prefix(#[trigger] texts(res@)[k], seq!['.']),
        !has_prefix(prefix@, seq!['.']) ==> forall|i: int|
            0 <= i < entries@.len() && (#[trigger] entries@[i]).name is Some && has_prefix(
                entries@[i].name->0@,
                seq!['.'],
            ) ==> !texts(res@).contains(entries@[i].name->0@.push('/')),
{
    let mut out: Vec<String> = Vec::new();
    let mut i: usize = 0;
    assert(texts(out@) =~= Seq::<Seq<char>>::empty());
    let dot_prefix = starts_with(prefix, ".");
    proof {
        reveal_strlit(".");
    }
    assert("."@ =~= seq!['.']);
    while i < entries.len()
        invariant
            i <= entries@.len(),
            dot_prefix == has_prefix(prefix@, seq!['.']),
            "."@ == seq!['.'],
            sorted_texts(texts(out@)),
            texts(out@).to_multiset() == offered(entries@, prefix@, i as int).to_multiset(),
        decreases entries@.len() - i,
    {
        let e = &entries[i];
        match &e.name {
            Some(name) => {
                let hidden = starts_with(name.as_str(), ".") && !dot_prefix;
                if !hidden && starts_with(name.as_str(), prefix) && e.leads_to_directory {
                    let mut c = name.clone();
                    push_char(&mut c, '/');
                    assert(entry_candidate(entries@[i as int], prefix@) == Some(c@));
                    proof {
                        broadcast use vstd::seq_lib::group_to_multiset_ensures;
                        assert(offered(entries@, prefix@, i + 1) == offered(entries@, prefix@, i as int).push(c@));
                    }
                    insert_sorted(&mut out, c);
                } else {
                    assert(entry_candidate(entries@[i as int], prefix@) is None);
                    assert(offered(entries@, prefix@, i + 1) == offered(entries@, prefix@, i as int));
                }
            },
            None => {
                assert(offered(entries@, prefix@, i + 1) == offered(entries@, prefix@, i as int));
            },
        }
        i = i + 1;
    }
    proof {
        lemma_offered_texts(entries@, prefix@, texts(out@));
    }
    out
}

} // verus!
