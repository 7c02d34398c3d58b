//! File names that collide with nothing in their directory, and the folder a
//! dated file belongs to.
//!
//! A path is text whose components are separated by `/`. A directory is known
//! by the names of its entries.

use crate::numeral::{decimal, lemma_decimal_digits, lemma_decimal_injective, push_decimal};
use crate::text::{chars_of, ends_with, matches_at, push_all, string_of};
use vstd::prelude::*;

verus! {

/// The counters that a name can carry stop here.
pub const MAX_COUNTER: u32 = 0xffff_ffff;

/// A dot and the extension.
pub open spec fn extension_suffix(ext: Seq<char>) -> Seq<char> {
    seq!['.'] + ext
}

/// `name` without each `suffix` that it ends with, however many follow one
/// another.
pub open spec fn strip_suffixes(name: Seq<char>, suffix: Seq<char>) -> Seq<char>
    decreases name.len(),
{
    if suffix.len() > 0 && suffix.is_suffix_of(name) {
        strip_suffixes(name.take(name.len() - suffix.len()), suffix)
    } else {
        name
    }
}

/// The base name with its extension: unchanged where it already ends with it.
pub open spec fn normalized_name(base: Seq<char>, ext: Seq<char>) -> Seq<char> {
    if extension_suffix(ext).is_suffix_of(base) {
        base
    } else {
        base + extension_suffix(ext)
    }
}

/// The base name without extension, then `_`, the counter and the extension.
pub open spec fn counted_name(base: Seq<char>, ext: Seq<char>, counter: nat) -> Seq<char> {
    strip_suffixes(base, extension_suffix(ext)) + seq!['_'] + decimal(counter) + extension_suffix(
        ext,
    )
}

/// The `k`-th name tried for a base name: the plain one first, then the
/// counted ones from 1 on.
pub open spec fn candidate_name(base: Seq<char>, ext: Seq<char>, k: nat) -> Seq<char> {
    if k == 0 {
        normalized_name(base, ext)
    } else {
        counted_name(base, ext, k)
    }
}

/// The names of a directory's entries, as a set.
pub open spec fn taken_names(existing: Seq<String>) -> Set<Seq<char>> {
    Set::new(|name: Seq<char>| exists|i: int| 0 <= i < existing.len() && existing[i]@ == name)
}

/// Candidate `k` is free and every earlier one is taken.
pub open spec fn is_first_free(taken: Set<Seq<char>>, base: Seq<char>, ext: Seq<char>, k: nat) -> bool {
    &&& !taken.contains(candidate_name(base, ext, k))
    &&& forall|j: nat| j < k ==> taken.contains(#[trigger] candidate_name(base, ext, j))
}

/// The name given to a file: the first candidate that the directory does not
/// hold, or nothing where every candidate up to the last counter is taken.
pub open spec fn allocated_name(taken: Set<Seq<char>>, base: Seq<char>, ext: Seq<char>) -> Option<
    Seq<char>,
> {
    if exists|k: nat| k <= MAX_COUNTER && is_first_free(taken, base, ext, k) {
        Some(
            candidate_name(
                base,
                ext,
                choose|k: nat| k <= MAX_COUNTER && is_first_free(taken, base, ext, k),
            ),
        )
    } else {
        None
    }
}

/// The position of the first `c` in `s`.
pub open spec fn first_index_of(s: Seq<char>, c: char) -> int {
    choose|i: int| 0 <= i < s.len() && s[i] == c && forall|j: int| 0 <= j < i ==> s[j] != c
}

/// The folder of a file name: what stands before its first underscore, or
/// `unknown-date` where it has none.
pub open spec fn date_part(filename: Seq<char>) -> Seq<char> {
    if filename.contains('_') {
        filename.take(first_index_of(filename, '_'))
    } else {
        "unknown-date"@
    }
}

/// `base` and `part` as one path: a separator between them unless `base` is
/// empty or ends with one; an absolute `part` alone.
pub open spec fn join_path(base: Seq<char>, part: Seq<char>) -> Seq<char> {
    if part.len() > 0 && part[0] == '/' {
        part
    } else if base.len() > 0 && base.last() != '/' {
        base + seq!['/'] + part
    } else {
        base + part
    }
}

/// The path of a file inside the folder named after its date.
pub open spec fn date_folder_path(base_folder: Seq<char>, filename: Seq<char>) -> Seq<char> {
    join_path(join_path(base_folder, date_part(filename)), filename)
}

pub fn extract_date_part(filename: &str) -> (part: String)
    ensures
        part@ == date_part(filename@),
{
    let chars = chars_of(filename);
    let mut i: usize = 0;
    while i < chars.len() && chars[i] != '_'
        invariant
            i <= chars.len(),
            forall|j: int| 0 <= j < i ==> chars@[j] != '_',
        decreases chars.len() - i,
    {
        i += 1;
    }
    if i < chars.len() {
        let mut prefix: Vec<char> = Vec::new();
        let mut k: usize = 0;
        while k < i
            invariant
                k <= i,
                i < chars.len(),
                prefix@ == chars@.take(k as int),
            decreases i - k,
        {
            prefix.push(chars[k]);
            assert(chars@.take(k + 1) == chars@.take(k as int).push(chars@[k as int]));
            k += 1;
        }
        assert(chars@.contains('_'));
        assert(first_index_of(chars@, '_') == i) by {
            let f = first_index_of(chars@, '_');
            assert(0 <= f < chars@.len() && chars@[f] == '_' && forall|j: int|
                0 <= j < f ==> chars@[j] != '_');
        }
        string_of(&prefix)
    } else {
        assert(!chars@.contains('_'));
        "unknown-date".to_owned()
    }
}

/// `base` and `part` as one path.
pub fn join(base: &Vec<char>, part: &Vec<char>) -> (path: Vec<char>)
    ensures
        path@ == join_path(base@, part@),
{
    let mut path: Vec<char> = Vec::new();
    if part.len() > 0 && part[0] == '/' {
        push_all(&mut path, part);
        assert(path@ =~= part@);
    } else {
        push_all(&mut path, base);
        if base.len() > 0 && base[base.len() - 1] != '/' {
            path.push('/');
        }
        push_all(&mut path, part);
        assert(path@ =~= join_path(base@, part@));
    }
    path
}

pub fn create_date_folder_path(base_folder: &str, new_filename: &str) -> (path: String)
    ensures
        path@ == date_folder_path(base_folder@, new_filename@),
{
    let folder = extract_date_part(new_filename);
    let first = join(&chars_of(base_folder), &chars_of(folder.as_str()));
    let whole = join(&first, &chars_of(new_filename));
    string_of(&whole)
}

fn suffix_of(ext: &str) -> (suffix: Vec<char>)
    ensures
        suffix@ == extension_suffix(ext@),
{
    let mut suffix: Vec<char> = Vec::new();
    suffix.push('.');
    push_all(&mut suffix, &chars_of(ext));
    assert(suffix@ =~= extension_suffix(ext@));
    suffix
}

pub fn normalize_filename_with_extension(base_name: &str, ext: &str) -> (name: String)
    ensures
        name@ == normalized_name(base_name@, ext@),
{
    let suffix = suffix_of(ext);
    let mut name = chars_of(base_name);
    if !ends_with(&name, &suffix) {
        push_all(&mut name, &suffix);
    }
    string_of(&name)
}

/// The length of `name` without the suffixes that it ends with.
fn stem_len(name: &Vec<char>, suffix: &Vec<char>) -> (len: usize)
    requires
        suffix.len() > 0,
    ensures
        len <= name.len(),
        name@.take(len as int) == strip_suffixes(name@, suffix@),
{
    let mut len: usize = name.len();
    assert(name@.take(len as int) == name@);
    loop
        invariant
            len <= name.len(),
            suffix.len() > 0,
            strip_suffixes(name@.take(len as int), suffix@) == strip_suffixes(name@, suffix@),
        ensures
            len <= name.len(),
            name@.take(len as int) == strip_suffixes(name@, suffix@),
        decreases len,
    {
        let ghost cur = name@.take(len as int);
        if suffix.len() <= len && matches_at(name, suffix, len - suffix.len()) {
            proof {
                let start = len - suffix.len();
                assert(cur.subrange(start, cur.len() as int) =~= name@.subrange(
                    start,
                    start + suffix@.len(),
                ));
                assert(suffix@.is_suffix_of(cur));
                assert(cur.take(cur.len() - suffix@.len()) =~= name@.take(start));
            }
            len = len - suffix.len();
        } else {
            proof {
                if suffix.len() <= len {
                    let start = len - suffix.len();
                    assert(cur.subrange(start, cur.len() as int) =~= name@.subrange(
                        start,
                        start + suffix@.len(),
                    ));
                }
                assert(!suffix@.is_suffix_of(cur));
            }
            break ;
        }
    }
    len
}

pub fn generate_filename_with_counter(base_name: &str, ext: &str, counter: u32) -> (name: String)
    ensures
        name@ == counted_name(base_name@, ext@, counter as nat),
{
    let suffix = suffix_of(ext);
    let base = chars_of(base_name);
    let keep = stem_len(&base, &suffix);
    let mut name: Vec<char> = Vec::new();
    let mut i: usize = 0;
    while i < keep
        invariant
            i <= keep <= base.len(),
            name@ == base@.take(i as int),
        decreases keep - i,
    {
        name.push(base[i]);
        assert(base@.take(i + 1) == base@.take(i as int).push(base@[i as int]));
        i += 1;
    }
    name.push('_');
    push_decimal(&mut name, counter as u64);
    push_all(&mut name, &suffix);
    assert(name@ =~= counted_name(base_name@, ext@, counter as nat));
    string_of(&name)
}

/// Whether the directory holds an entry of this name.
fn is_taken(existing: &Vec<String>, name: &String) -> (r: bool)
    ensures
        r == taken_names(existing@).contains(name@),
{
    let mut i: usize = 0;
    while i < existing.len()
        invariant
            i <= existing.len(),
            forall|j: int| 0 <= j < i ==> existing@[j]@ != name@,
        decreases existing.len() - i,
    {
        if existing[i].as_str().eq(name.as_str()) {
            return true;
        }
        i += 1;
    }
    false
}

/// The name under which a file can be stored beside the entries `existing`
/// of its directory: the base name with its extension where that is free, else
/// the first free one of `base_1.ext`, `base_2.ext` and so on.
pub fn unique_filename(existing: &Vec<String>, base_name: &str, ext: &str) -> (name: Option<String>)
    ensures
        match name {
            Some(n) => Some(n@),
            None => None,
        } == allocated_name(taken_names(existing@), base_name@, ext@),
        existing@.len() <= MAX_COUNTER ==> name is Some,
{
    let ghost taken = taken_names(existing@);
    proof {
        lemma_taken_names_count(existing@);
        if existing@.len() <= MAX_COUNTER {
            lemma_free_candidate_exists(taken, base_name@, ext@);
        }
    }
    let initial = normalize_filename_with_extension(base_name, ext);
    if !is_taken(existing, &initial) {
        proof {
            lemma_first_free_unique(taken, base_name@, ext@, 0);
        }
        return Some(initial);
    }
    let mut counter: u32 = 1;
    loop
        invariant
            1 <= counter,
            taken == taken_names(existing@),
            forall|j: nat| j < counter ==> taken.contains(#[trigger] candidate_name(base_name@, ext@, j)),
            existing@.len() <= MAX_COUNTER ==> allocated_name(taken, base_name@, ext@) is Some,
        decreases MAX_COUNTER - counter,
    {
        let candidate = generate_filename_with_counter(base_name, ext, counter);
        if !is_taken(existing, &candidate) {
            proof {
                lemma_first_free_unique(taken, base_name@, ext@, counter as nat);
            }
            return Some(candidate);
        }
        if counter == MAX_COUNTER {
            assert(forall|k: nat|
                k <= MAX_COUNTER ==> taken.contains(#[trigger] candidate_name(base_name@, ext@, k)));
            return None;
        }
        counter += 1;
    }
}

/// A directory has one first free candidate at most, so the name that is
/// allocated is that candidate.
pub proof fn lemma_first_free_unique(taken: Set<Seq<char>>, base: Seq<char>, ext: Seq<char>, k: nat)
    requires
        k <= MAX_COUNTER,
        is_first_free(taken, base, ext, k),
    ensures
        allocated_name(taken, base, ext) == Some(candidate_name(base, ext, k)),
{
    let other = choose|j: nat| j <= MAX_COUNTER && is_first_free(taken, base, ext, j);
    assert(other <= MAX_COUNTER && is_first_free(taken, base, ext, other));
    if other < k {
        assert(taken.contains(candidate_name(base, ext, other)));
    } else if k < other {
        assert(taken.contains(candidate_name(base, ext, k)));
    }
}

/// What `strip_suffixes` leaves is the beginning of the name and does not end
/// with the suffix; where it leaves less than the name, the suffix begins
/// right behind it.
pub proof fn lemma_strip_suffixes_shape(name: Seq<char>, suffix: Seq<char>)
    requires
        suffix.len() > 0,
    ensures
        ({
            let stem = strip_suffixes(name, suffix);
            &&& stem.len() <= name.len()
            &&& stem == name.take(stem.len() as int)
            &&& stem.len() < name.len() ==> name[stem.len() as int] == suffix[0]
            &&& !suffix.is_suffix_of(stem)
        }),
    decreases name.len(),
{
    if suffix.is_suffix_of(name) {
        let shorter = name.take(name.len() - suffix.len());
        lemma_strip_suffixes_shape(shorter, suffix);
        let stem = strip_suffixes(shorter, suffix);
        assert(stem == name.take(stem.len() as int));
        if stem.len() == shorter.len() {
            assert(name.subrange(name.len() - suffix.len(), name.len() as int)[0] == suffix[0]);
        } else {
            assert(shorter[stem.len() as int] == name[stem.len() as int]);
        }
    } else {
        assert(name.take(name.len() as int) == name);
    }
}

/// No two candidates for one base name and extension are the same name.
pub proof fn lemma_candidates_distinct(base: Seq<char>, ext: Seq<char>, i: nat, j: nat)
    requires
        i != j,
    ensures
        candidate_name(base, ext, i) != candidate_name(base, ext, j),
{
    let suffix = extension_suffix(ext);
    let stem = strip_suffixes(base, suffix);
    lemma_strip_suffixes_shape(base, suffix);
    lemma_decimal_digits(i);
    lemma_decimal_digits(j);
    if i >= 1 && j >= 1 {
        let a = counted_name(base, ext, i);
        let b = counted_name(base, ext, j);
        if a == b {
            let from: int = stem.len() as int + 1;
            assert(a.len() == stem.len() + 1 + decimal(i).len() + suffix.len());
            assert(b.len() == stem.len() + 1 + decimal(j).len() + suffix.len());
            assert(a.subrange(from, from + decimal(i).len()) =~= decimal(i));
            assert(b.subrange(from, from + decimal(j).len()) =~= decimal(j));
            lemma_decimal_injective(i, j);
        }
    } else {
        let k = if i == 0 {
            j
        } else {
            i
        };
        let plain = normalized_name(base, ext);
        let counted = counted_name(base, ext, k);
        assert(counted.len() == stem.len() + 1 + decimal(k).len() + suffix.len());
        assert(counted[stem.len() as int] == '_');
        if plain == counted {
            if suffix.is_suffix_of(base) {
                assert(base[stem.len() as int] == suffix[0]);
            } else {
                assert(plain.len() == base.len() + suffix.len());
            }
        }
    }
}

/// The names that a directory holds once `n` files in a row have asked for
/// the same base name and extension, each stored under the name it was given.
pub open spec fn taken_after(taken: Set<Seq<char>>, base: Seq<char>, ext: Seq<char>, n: nat) -> Set<
    Seq<char>,
>
    decreases n,
{
    if n == 0 {
        taken
    } else {
        let before = taken_after(taken, base, ext, (n - 1) as nat);
        match allocated_name(before, base, ext) {
            Some(name) => before.insert(name),
            None => before,
        }
    }
}

/// The name given to the file that asks after `i` others (see `taken_after`).
pub open spec fn nth_allocation(taken: Set<Seq<char>>, base: Seq<char>, ext: Seq<char>, i: nat) -> Option<
    Seq<char>,
> {
    allocated_name(taken_after(taken, base, ext, i), base, ext)
}

/// A name that is allocated is not among the directory's entries.
pub proof fn lemma_allocated_is_free(taken: Set<Seq<char>>, base: Seq<char>, ext: Seq<char>)
    ensures
        allocated_name(taken, base, ext) matches Some(name) ==> !taken.contains(name),
{
    if exists|k: nat| k <= MAX_COUNTER && is_first_free(taken, base, ext, k) {
        let k = choose|k: nat| k <= MAX_COUNTER && is_first_free(taken, base, ext, k);
        assert(is_first_free(taken, base, ext, k));
    }
}

/// Storing files never removes a name from the directory.
pub proof fn lemma_taken_after_grows(
    taken: Set<Seq<char>>,
    base: Seq<char>,
    ext: Seq<char>,
    i: nat,
    j: nat,
)
    requires
        i <= j,
    ensures
        taken_after(taken, base, ext, i).subset_of(taken_after(taken, base, ext, j)),
    decreases j,
{
    if i < j {
        lemma_taken_after_grows(taken, base, ext, i, (j - 1) as nat);
    }
}

/// Files that ask one after another for the same base name and extension are
/// given pairwise different names, whatever the directory held before.
pub proof fn lemma_allocations_pairwise_distinct(
    taken: Set<Seq<char>>,
    base: Seq<char>,
    ext: Seq<char>,
    i: nat,
    j: nat,
)
    requires
        i < j,
        nth_allocation(taken, base, ext, i) is Some,
        nth_allocation(taken, base, ext, j) is Some,
    ensures
        nth_allocation(taken, base, ext, i) != nth_allocation(taken, base, ext, j),
{
    let first = nth_allocation(taken, base, ext, i)->0;
    assert(taken_after(taken, base, ext, i + 1).contains(first));
    lemma_taken_after_grows(taken, base, ext, i + 1, j);
    lemma_allocated_is_free(taken_after(taken, base, ext, j), base, ext);
}

/// Where the directory holds none of the first `n` candidates, `n` files that
/// ask one after another for the same base name and extension are given the
/// plain name, then `_1`, `_2` and so on, in the order in which they ask.
pub proof fn lemma_allocations_follow_counters(
    taken: Set<Seq<char>>,
    base: Seq<char>,
    ext: Seq<char>,
    n: nat,
    i: nat,
)
    requires
        i < n <= MAX_COUNTER + 1,
        forall|k: nat| k < n ==> !taken.contains(#[trigger] candidate_name(base, ext, k)),
    ensures
        nth_allocation(taken, base, ext, i) == Some(candidate_name(base, ext, i)),
        taken_after(taken, base, ext, i + 1) == taken_after(taken, base, ext, i).insert(
            candidate_name(base, ext, i),
        ),
        forall|name: Seq<char>| #[trigger]
            taken_after(taken, base, ext, i).contains(name) <==> taken.contains(name) || exists|
                k: nat,
            |
                k < i && name == candidate_name(base, ext, k),
    decreases i,
{
    let here = taken_after(taken, base, ext, i);
    if i > 0 {
        lemma_allocations_follow_counters(taken, base, ext, n, (i - 1) as nat);
        let before = taken_after(taken, base, ext, (i - 1) as nat);
        assert(here == before.insert(candidate_name(base, ext, (i - 1) as nat)));
        assert forall|name: Seq<char>| #[trigger]
            here.contains(name) <==> taken.contains(name) || exists|k: nat|
                k < i && name == candidate_name(base, ext, k) by {
            if here.contains(name) && !taken.contains(name) {
                if name == candidate_name(base, ext, (i - 1) as nat) {
                    assert(((i - 1) as nat) < i);
                } else {
                    assert(before.contains(name));
                    let k = choose|k: nat| k < i - 1 && name == candidate_name(base, ext, k);
                    assert(k < i);
                }
            }
            if exists|k: nat| k < i && name == candidate_name(base, ext, k) {
                let k = choose|k: nat| k < i && name == candidate_name(base, ext, k);
                if k < i - 1 {
                    assert(before.contains(name));
                }
            }
        }
    }
    assert(!here.contains(candidate_name(base, ext, i))) by {
        if here.contains(candidate_name(base, ext, i)) {
            let k = choose|k: nat| k < i && candidate_name(base, ext, i) == candidate_name(base, ext, k);
            lemma_candidates_distinct(base, ext, i, k);
        }
    }
    assert forall|j: nat| j < i implies here.contains(#[trigger] candidate_name(base, ext, j)) by {
        assert(exists|k: nat| k < i && candidate_name(base, ext, j) == candidate_name(base, ext, k));
    }
    lemma_first_free_unique(here, base, ext, i);
}

/// The first `n` candidates for a base name and extension, as a set.
pub open spec fn candidates_below(base: Seq<char>, ext: Seq<char>, n: nat) -> Set<Seq<char>> {
    Set::new(|name: Seq<char>| exists|k: nat| k < n && name == candidate_name(base, ext, k))
}

/// The first `n` candidates are `n` names.
pub proof fn lemma_candidates_count(base: Seq<char>, ext: Seq<char>, n: nat)
    ensures
        candidates_below(base, ext, n).finite(),
        candidates_below(base, ext, n).len() == n,
    decreases n,
{
    if n == 0 {
        assert(candidates_below(base, ext, 0) =~= Set::<Seq<char>>::empty());
    } else {
        let m = (n - 1) as nat;
        lemma_candidates_count(base, ext, m);
        let fewer = candidates_below(base, ext, m);
        let last = candidate_name(base, ext, m);
        assert(!fewer.contains(last)) by {
            if fewer.contains(last) {
                let k = choose|k: nat| k < m && last == candidate_name(base, ext, k);
                lemma_candidates_distinct(base, ext, m, k);
            }
        }
        assert forall|name: Seq<char>| candidates_below(base, ext, n).contains(name)
            == fewer.insert(last).contains(name) by {
            if candidates_below(base, ext, n).contains(name) {
                let k = choose|k: nat| k < n && name == candidate_name(base, ext, k);
                if k < m {
                    assert(fewer.contains(name));
                }
            }
            if fewer.contains(name) {
                let k = choose|k: nat| k < m && name == candidate_name(base, ext, k);
                assert(k < n && name == candidate_name(base, ext, k));
            }
            if name == last {
                assert(m < n && name == candidate_name(base, ext, m));
            }
        }
        assert(candidates_below(base, ext, n) =~= fewer.insert(last));
    }
}

/// Below a free candidate there is a first free one.
proof fn lemma_least_free(taken: Set<Seq<char>>, base: Seq<char>, ext: Seq<char>, k: nat)
    requires
        !taken.contains(candidate_name(base, ext, k)),
    ensures
        exists|j: nat| j <= k && is_first_free(taken, base, ext, j),
    decreases k,
{
    if forall|j: nat| j < k ==> taken.contains(#[trigger] candidate_name(base, ext, j)) {
        assert(is_first_free(taken, base, ext, k));
    } else {
        let j = choose|j: nat| j < k && !taken.contains(#[trigger] candidate_name(base, ext, j));
        lemma_least_free(taken, base, ext, j);
        let least = choose|i: nat| i <= j && is_first_free(taken, base, ext, i);
        assert(least <= k && is_first_free(taken, base, ext, least));
    }
}

/// A directory that holds fewer names than there are candidates leaves a
/// candidate free, so a name is allocated.
pub proof fn lemma_free_candidate_exists(taken: Set<Seq<char>>, base: Seq<char>, ext: Seq<char>)
    requires
        taken.finite(),
        taken.len() <= MAX_COUNTER,
    ensures
        allocated_name(taken, base, ext) is Some,
{
    let all = candidates_below(base, ext, (MAX_COUNTER + 1) as nat);
    lemma_candidates_count(base, ext, (MAX_COUNTER + 1) as nat);
    if forall|k: nat| k <= MAX_COUNTER ==> taken.contains(#[trigger] candidate_name(base, ext, k)) {
        assert(all.subset_of(taken)) by {
            assert forall|name: Seq<char>| all.contains(name) implies taken.contains(name) by {
                let k = choose|k: nat| k < MAX_COUNTER + 1 && name == candidate_name(base, ext, k);
                assert(taken.contains(candidate_name(base, ext, k)));
            }
        }
        vstd::set_lib::lemma_len_subset(all, taken);
    } else {
        let k = choose|k: nat|
            k <= MAX_COUNTER && !taken.contains(#[trigger] candidate_name(base, ext, k));
        lemma_least_free(taken, base, ext, k);
        let least = choose|j: nat| j <= k && is_first_free(taken, base, ext, j);
        assert(least <= MAX_COUNTER && is_first_free(taken, base, ext, least));
    }
}

/// The entries of a directory are no more names than entries.
pub proof fn lemma_taken_names_count(existing: Seq<String>)
    ensures
        taken_names(existing).finite(),
        taken_names(existing).len() <= existing.len(),
    decreases existing.len(),
{
    if existing.len() == 0 {
        assert(taken_names(existing) =~= Set::<Seq<char>>::empty());
    } else {
        let front = existing.drop_last();
        lemma_taken_names_count(front);
        assert forall|name: Seq<char>| taken_names(existing).contains(name) == taken_names(
            front,
        ).insert(existing.last()@).contains(name) by {
            if taken_names(existing).contains(name) {
                let i = choose|i: int| 0 <= i < existing.len() && existing[i]@ == name;
                if i < front.len() {
                    assert(front[i]@ == name);
                }
            }
            if taken_names(front).contains(name) {
                let i = choose|i: int| 0 <= i < front.len() && front[i]@ == name;
                assert(existing[i]@ == name);
            }
            if name == existing.last()@ {
                assert(existing[existing.len() - 1]@ == name);
            }
        }
        assert(taken_names(existing) =~= taken_names(front).insert(existing.last()@));
    }
}

/// Storing `n` files adds `n` names at most to a directory.
pub proof fn lemma_taken_after_count(
    taken: Set<Seq<char>>,
    base: Seq<char>,
    ext: Seq<char>,
    n: nat,
)
    requires
        taken.finite(),
    ensures
        taken_after(taken, base, ext, n).finite(),
        taken_after(taken, base, ext, n).len() <= taken.len() + n,
    decreases n,
{
    if n > 0 {
        lemma_taken_after_count(taken, base, ext, (n - 1) as nat);
    }
}

/// Whatever a directory holds at first, as long as it and the files to come
/// are no more than there are candidates: each of `n` files that ask one
/// after another for the same base name and extension, each stored under the
/// name it was given, is given a name; that name was not in the directory at
/// first; and no two of the files are given the same name.
pub proof fn lemma_allocations_succeed(
    taken: Set<Seq<char>>,
    base: Seq<char>,
    ext: Seq<char>,
    n: nat,
    i: nat,
    j: nat,
)
    requires
        taken.finite(),
        taken.len() + n <= MAX_COUNTER + 1,
        i < j < n,
    ensures
        nth_allocation(taken, base, ext, i) is Some,
        nth_allocation(taken, base, ext, j) is Some,
        !taken.contains(nth_allocation(taken, base, ext, i)->0),
        !taken.contains(nth_allocation(taken, base, ext, j)->0),
        nth_allocation(taken, base, ext, i) != nth_allocation(taken, base, ext, j),
{
    lemma_taken_after_count(taken, base, ext, i);
    lemma_taken_after_count(taken, base, ext, j);
    lemma_free_candidate_exists(taken_after(taken, base, ext, i), base, ext);
    lemma_free_candidate_exists(taken_after(taken, base, ext, j), base, ext);
    lemma_allocated_is_free(taken_after(taken, base, ext, i), base, ext);
    lemma_allocated_is_free(taken_after(taken, base, ext, j), base, ext);
    lemma_taken_after_grows(taken, base, ext, 0, i);
    lemma_taken_after_grows(taken, base, ext, 0, j);
    lemma_allocations_pairwise_distinct(taken, base, ext, i, j);
}

} // verus!
