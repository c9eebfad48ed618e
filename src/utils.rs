//! Identifiers, relevance scoring and text shortening shared by the providers.
use std::collections::hash_map::DefaultHasher;
use std::hash::Hasher;
use vstd::prelude::*;
use vstd::std_specs::hash::DefaultHasherAdditionalSpecFns;
use crate::text::{
    chars_of, concat_str, has_infix, has_infix_exec, has_prefix, has_prefix_exec,
    is_subsequence, is_subsequence_exec, lower_of, same_chars, string_of, string_of_range,
    to_lower, trim, trim_chars, byte_len, fit_len, fit_prefix, lemma_byte_len_prefix,
};

verus! {

/// The writes that hashing a `str` makes to a hasher.
pub uninterp spec fn str_hash_writes_of(s: Seq<char>) -> Seq<Seq<u8>>;

/// Relies on `Hash for str`: what it writes to the hasher depends on the
/// characters alone.
#[verifier::external_body]
fn hash_str_into(content: &str, hasher: &mut DefaultHasher)
    ensures
        final(hasher)@ == old(hasher)@ + str_hash_writes_of(content@),
{
    std::hash::Hash::hash(content, hasher)
}

/// What a fresh `DefaultHasher` (fixed keys) gives for a `str`.
pub open spec fn content_hash_of(s: Seq<char>) -> u64 {
    DefaultHasher::spec_finish(str_hash_writes_of(s))
}

fn hash_str(content: &str) -> (r: u64)
    ensures
        r == content_hash_of(content@),
{
    let mut hasher = DefaultHasher::new();
    hash_str_into(content, &mut hasher);
    assert(hasher@ =~= str_hash_writes_of(content@));
    hasher.finish()
}

/// The lower-case hexadecimal digit for `d < 16`.
pub open spec fn hex_digit(d: nat) -> char {
    if d == 0 { '0' } else if d == 1 { '1' } else if d == 2 { '2' } else if d == 3 { '3' }
    else if d == 4 { '4' } else if d == 5 { '5' } else if d == 6 { '6' } else if d == 7 { '7' }
    else if d == 8 { '8' } else if d == 9 { '9' } else if d == 10 { 'a' } else if d == 11 { 'b' }
    else if d == 12 { 'c' } else if d == 13 { 'd' } else if d == 14 { 'e' } else { 'f' }
}

/// `n` in lower-case hexadecimal, without leading zeros (`{:x}`).
pub open spec fn hex_of(n: nat) -> Seq<char>
    decreases n,
{
    if n < 16 {
        seq![hex_digit(n)]
    } else {
        hex_of(n / 16).push(hex_digit(n % 16))
    }
}

fn hex_digit_exec(d: u64) -> (c: char)
    requires
        d < 16,
    ensures
        c == hex_digit(d as nat),
{
    if d == 0 { '0' } else if d == 1 { '1' } else if d == 2 { '2' } else if d == 3 { '3' }
    else if d == 4 { '4' } else if d == 5 { '5' } else if d == 6 { '6' } else if d == 7 { '7' }
    else if d == 8 { '8' } else if d == 9 { '9' } else if d == 10 { 'a' } else if d == 11 { 'b' }
    else if d == 12 { 'c' } else if d == 13 { 'd' } else if d == 14 { 'e' } else { 'f' }
}

fn push_hex(n: u64, out: &mut Vec<char>)
    ensures
        final(out)@ == old(out)@ + hex_of(n as nat),
    decreases n,
{
    if n >= 16 {
        push_hex(n / 16, out);
    }
    out.push(hex_digit_exec(n % 16));
    assert(final(out)@ =~= old(out)@ + hex_of(n as nat));
}

/// The identifier `<prefix>_<hash of content in hex>`: the same content
/// always gives the same identifier.
pub fn generate_id(prefix: &str, content: &str) -> (r: String)
    ensures
        r@ == prefix@ + seq!['_'] + hex_of(content_hash_of(content@) as nat),
{
    let hash = hash_str(content);
    let mut digits: Vec<char> = chars_of(prefix);
    digits.push('_');
    push_hex(hash, &mut digits);
    string_of(&digits)
}

/// `t` cut to `max_length` bytes of UTF-8: unchanged where it fits, else
/// its longest prefix of at most `max_length - 3` bytes (a character that
/// would cross that limit is left out whole) followed by `...`.
pub open spec fn shortened_bytes(t: Seq<char>, max_length: nat) -> Seq<char> {
    if byte_len(t) <= max_length {
        t
    } else {
        let keep = if max_length >= 3 { max_length - 3 } else { 0 };
        t.subrange(0, fit_len(t, keep as nat, 0) as int) + seq!['.', '.', '.']
    }
}

/// What `truncate_text` returns: the trimmed text, shortened to
/// `max_length` bytes (see `shortened_bytes`).
pub open spec fn truncated(text: Seq<char>, max_length: nat) -> Seq<char> {
    shortened_bytes(trim(text), max_length)
}

/// Shortens `t` to `max_length` bytes (see `shortened_bytes`).
pub fn shorten_bytes(t: &Vec<char>, max_length: usize) -> (r: String)
    ensures
        r@ == shortened_bytes(t@, max_length as nat),
{
    let whole = fit_prefix(t, max_length);
    if whole == t.len() {
        assert(t@.subrange(0, whole as int) =~= t@);
        string_of(t)
    } else {
        proof {
            lemma_byte_len_prefix(t@, whole + 1);
        }
        let keep: usize = if max_length >= 3 { max_length - 3 } else { 0 };
        let k = fit_prefix(t, keep);
        let head = string_of_range(t, 0, k);
        proof {
            reveal_strlit("...");
            assert("..."@ =~= seq!['.', '.', '.']);
        }
        concat_str(head.as_str(), "...")
    }
}

/// Shortens text for display: trimmed, then cut to `max_length` bytes of
/// UTF-8 (see `truncated`).
pub fn truncate_text(text: &str, max_length: usize) -> (r: String)
    ensures
        r@ == truncated(text@, max_length as nat),
{
    let chars = chars_of(text);
    let t = trim_chars(&chars);
    shorten_bytes(&t, max_length)
}

/// The query's characters occur in order in the text, both lower-cased.
pub open spec fn fuzzy_matches(text: Seq<char>, pattern: Seq<char>) -> bool {
    is_subsequence(lower_of(pattern), lower_of(text))
}

/// Case-insensitive subsequence match: an empty pattern matches everything,
/// an empty text matches only the empty pattern.
pub fn fuzzy_match(text: &str, pattern: &str) -> (r: bool)
    ensures
        r == fuzzy_matches(text@, pattern@),
{
    let t = chars_of(to_lower(text).as_str());
    let p = chars_of(to_lower(pattern).as_str());
    is_subsequence_exec(&p, &t)
}

/// Some category holds the query.
pub open spec fn some_category_holds(categories: Seq<Seq<char>>, q: Seq<char>) -> bool {
    exists|k: int| 0 <= k < categories.len() && has_infix(#[trigger] categories[k], q)
}

/// The relevance tier of a candidate; all arguments are already lower-cased.
/// The first tier that applies wins.
pub open spec fn relevance(
    q: Seq<char>,
    title: Seq<char>,
    description: Seq<char>,
    categories: Seq<Seq<char>>,
) -> int {
    if title == q {
        1000
    } else if has_prefix(title, q) {
        500
    } else if has_infix(title, q) {
        200
    } else if has_infix(description, q) {
        100
    } else if some_category_holds(categories, q) {
        50
    } else if is_subsequence(q, title) {
        25
    } else {
        0
    }
}

/// The lower-cased form of each category.
pub open spec fn lowered_all(categories: Seq<String>) -> Seq<Seq<char>> {
    categories.map_values(|c: String| lower_of(c@))
}

/// The relevance score of a title, a description and categories for a
/// query, compared case-insensitively.
pub open spec fn relevance_score(
    query: Seq<char>,
    title: Seq<char>,
    description: Seq<char>,
    categories: Seq<String>,
) -> int {
    relevance(lower_of(query), lower_of(title), lower_of(description), lowered_all(categories))
}

pub open spec fn category_views(categories: Seq<String>) -> Seq<Seq<char>> {
    categories.map_values(|c: String| c@)
}

fn any_category_holds(categories: &Vec<String>, q: &Vec<char>) -> (r: bool)
    ensures
        r == some_category_holds(category_views(categories@), q@),
{
    let ghost cats = category_views(categories@);
    let mut k: usize = 0;
    while k < categories.len()
        invariant
            k <= categories@.len(),
            cats == category_views(categories@),
            forall|j: int| 0 <= j < k ==> !has_infix(#[trigger] cats[j], q@),
        decreases categories@.len() - k,
    {
        let c = chars_of(categories[k].as_str());
        if has_infix_exec(&c, q) {
            assert(has_infix(cats[k as int], q@));
            return true;
        }
        k = k + 1;
    }
    false
}

/// The relevance tier of a candidate whose query, title, description and
/// categories are already lower-cased (see `relevance`).
pub fn relevance_of_lowered(
    query: &str,
    title: &str,
    description: &str,
    categories: &Vec<String>,
) -> (r: i32)
    ensures
        r == relevance(query@, title@, description@, category_views(categories@)),
{
    let q = chars_of(query);
    let t = chars_of(title);
    let d = chars_of(description);
    if same_chars(&t, &q) {
        1000
    } else if has_prefix_exec(&t, &q) {
        500
    } else if has_infix_exec(&t, &q) {
        200
    } else if has_infix_exec(&d, &q) {
        100
    } else if any_category_holds(categories, &q) {
        50
    } else if is_subsequence_exec(&q, &t) {
        25
    } else {
        0
    }
}

/// Scores a candidate against a query: exact title 1000, title prefix 500,
/// title infix 200, description 100, category 50, characters in order in
/// the title 25, else 0; all case-insensitive.
pub fn calculate_relevance_score(
    query: &str,
    title: &str,
    description: &str,
    categories: &[String],
) -> (r: i32)
    ensures
        r == relevance_score(query@, title@, description@, categories@),
{
    let mut lowered: Vec<String> = Vec::new();
    let mut k: usize = 0;
    while k < categories.len()
        invariant
            k <= categories@.len(),
            lowered@.len() == k,
            forall|j: int| 0 <= j < k ==> (#[trigger] lowered@[j])@ == lower_of(categories@[j]@),
        decreases categories@.len() - k,
    {
        lowered.push(to_lower(categories[k].as_str()));
        k = k + 1;
    }
    assert(category_views(lowered@) =~= lowered_all(categories@));
    let q = to_lower(query);
    let t = to_lower(title);
    let d = to_lower(description);
    relevance_of_lowered(q.as_str(), t.as_str(), d.as_str(), &lowered)
}

} // verus!
