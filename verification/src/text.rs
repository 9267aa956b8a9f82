//! Text matching: literal substring search, Unicode case folding and
//! identifier-style normalisation (`runShell` ~ `RUN_SHELL` ~ `run-shell`).
use vstd::prelude::*;

verus! {

// ---------------------------------------------------------------------
// Specification
// ---------------------------------------------------------------------

/// What `str::to_lowercase` returns for a string with the given characters.
pub uninterp spec fn lowercase_text(s: Seq<char>) -> Seq<char>;

/// What `char::to_lowercase` yields for one character (one or more characters).
pub uninterp spec fn char_lowercase(c: char) -> Seq<char>;

/// ASCII upper-case letters mapped to lower case; every other character kept.
pub open spec fn ascii_lower(c: char) -> char {
    if 65 <= (c as u32) && (c as u32) <= 90 {
        ((c as u32) + 32) as char
    } else {
        c
    }
}

/// Every character is ASCII.
pub open spec fn is_ascii_text(s: Seq<char>) -> bool {
    forall|i: int| 0 <= i < s.len() ==> (#[trigger] s[i] as u32) < 128
}

/// The text with its ASCII upper-case letters lowercased.
pub open spec fn ascii_lowercase(s: Seq<char>) -> Seq<char> {
    s.map_values(|c: char| ascii_lower(c))
}

/// What one character becomes in a lowercased string: an ASCII character its
/// ASCII lower case; `Σ` either `σ` or, at the end of a word, `ς`; any other
/// character its `char_lowercase`.
pub open spec fn lower_piece(c: char, word_final: bool) -> Seq<char> {
    if (c as u32) < 128 {
        seq![ascii_lower(c)]
    } else if c == 'Σ' {
        if word_final {
            seq!['ς']
        } else {
            seq!['σ']
        }
    } else {
        char_lowercase(c)
    }
}

/// The pieces of the characters of `s`, one after the other; `finals` says
/// for each `Σ` whether it took its word-final form.
pub open spec fn lowered_pieces(s: Seq<char>, finals: Seq<bool>) -> Seq<char>
    decreases s.len(),
{
    if s.len() == 0 {
        Seq::empty()
    } else {
        lowered_pieces(s.drop_last(), finals.drop_last()) + lower_piece(s.last(), finals.last())
    }
}

/// The pieces of the characters of `s` with no `Σ` in word-final form: for a
/// text without `Σ`, what lowercasing it gives.
pub open spec fn lowered_plain(s: Seq<char>) -> Seq<char> {
    lowered_pieces(s, Seq::new(s.len(), |i: int| false))
}

/// `lowered` is `s` lowercased piece by piece, for some choice of word-final `Σ`s.
pub open spec fn lowered_by_pieces(lowered: Seq<char>, s: Seq<char>) -> bool {
    exists|finals: Seq<bool>| finals.len() == s.len() && lowered == lowered_pieces(s, finals)
}

/// `needle` occurs in `haystack` starting at position `i`.
pub open spec fn occurs_at(haystack: Seq<char>, needle: Seq<char>, i: int) -> bool {
    &&& 0 <= i
    &&& i + needle.len() <= haystack.len()
    &&& haystack.subrange(i, i + needle.len()) == needle
}

/// `needle` is a contiguous piece of `haystack` (the empty needle is in every text).
pub open spec fn text_contains(haystack: Seq<char>, needle: Seq<char>) -> bool {
    exists|i: int| occurs_at(haystack, needle, i)
}

/// The identifier separators that normalisation drops.
pub open spec fn is_separator(c: char) -> bool {
    c == '_' || c == '-'
}

/// What one character contributes to the normalised form of an identifier.
pub open spec fn normalized_piece(c: char) -> Seq<char> {
    if is_separator(c) {
        Seq::empty()
    } else {
        char_lowercase(c)
    }
}

/// An identifier with `_` and `-` removed and every other character lowercased.
pub open spec fn normalized(s: Seq<char>) -> Seq<char>
    decreases s.len(),
{
    if s.len() == 0 {
        Seq::empty()
    } else {
        normalized(s.drop_last()) + normalized_piece(s.last())
    }
}

/// `normalized` of an ASCII text: separators dropped, letters in ASCII lower case.
pub open spec fn ascii_normalized(s: Seq<char>) -> Seq<char>
    decreases s.len(),
{
    if s.len() == 0 {
        Seq::empty()
    } else {
        ascii_normalized(s.drop_last()) + if is_separator(s.last()) {
            Seq::empty()
        } else {
            seq![ascii_lower(s.last())]
        }
    }
}

/// When `needle` matches `haystack`: literally when case-sensitive; otherwise
/// after lowercasing both, or after normalising both as identifiers, provided the
/// normalised needle is not empty.
pub open spec fn text_matches(haystack: Seq<char>, needle: Seq<char>, case_sensitive: bool) -> bool {
    if case_sensitive {
        text_contains(haystack, needle)
    } else {
        ||| text_contains(lowercase_text(haystack), lowercase_text(needle))
        ||| (normalized(needle).len() > 0 && text_contains(normalized(haystack), normalized(needle)))
    }
}

/// The code of `c`, with ASCII upper-case letters mapped to lower case.
pub open spec fn ascii_fold(c: char) -> int {
    let v = c as int;
    if 65 <= v && v <= 90 {
        v + 32
    } else {
        v
    }
}

/// The two texts are equal when ASCII letters are compared without case.
pub open spec fn equal_ignoring_ascii_case(a: Seq<char>, b: Seq<char>) -> bool {
    &&& a.len() == b.len()
    &&& forall|i: int| 0 <= i < a.len() ==> ascii_fold(#[trigger] a[i]) == ascii_fold(b[i])
}

// ---------------------------------------------------------------------
// Calls into std that vstd does not specify
// ---------------------------------------------------------------------

/// Calls `str::to_lowercase`; the result is named `lowercase_text` of the
/// input.  The string is lowercased character by character: ASCII letters to
/// their ASCII lower case, other ASCII characters unchanged, `Σ` to `σ` or (at
/// the end of a word) `ς`, and every other character as `char::to_lowercase`
/// maps it.  Where a `Σ` ends a word is not stated.
#[verifier::external_body]
pub(crate) fn lowercase_str(s: &str) -> (r: String)
    ensures
        r@ == lowercase_text(s@),
        lowered_by_pieces(r@, s@),
{
    s.to_lowercase()
}

/// Calls `char::to_lowercase` and collects the characters it yields; the
/// result is named `char_lowercase` of the input.  It yields one or more
/// characters, and for an ASCII character exactly its ASCII lower case.
#[verifier::external_body]
fn lowercase_char(c: char) -> (r: Vec<char>)
    ensures
        r@ == char_lowercase(c),
        r@.len() >= 1,
        r@ == seq![ascii_lower(c)] || c as u32 >= 128,
{
    c.to_lowercase().collect()
}

/// Calls `String::push`, which appends one character.
#[verifier::external_body]
pub(crate) fn push_char(s: &mut String, c: char)
    ensures
        final(s)@ == old(s)@.push(c),
{
    s.push(c)
}

// ---------------------------------------------------------------------
// Executable text helpers
// ---------------------------------------------------------------------

/// The characters of `s`, in order.
pub fn chars_of(s: &str) -> (out: Vec<char>)
    ensures
        out@ == s@,
{
    let mut out: Vec<char> = Vec::new();
    for c in it: s.chars()
        invariant
            out@ == it.seq().take(it.index() as int),
    {
        out.push(c);
    }
    out
}

/// Whether `needle` occurs in `haystack` at position `i`.
fn occurs_at_exec(haystack: &Vec<char>, needle: &Vec<char>, i: usize) -> (r: bool)
    requires
        i + needle.len() <= haystack.len(),
    ensures
        r == occurs_at(haystack@, needle@, i as int),
{
    let n = needle.len();
    let mut j: usize = 0;
    while j < n
        invariant
            n == needle.len(),
            i + n <= haystack.len(),
            j <= n,
            forall|k: int| 0 <= k < j ==> haystack@[i + k] == needle@[k],
        decreases n - j,
    {
        if haystack[i + j] != needle[j] {
            assert(haystack@.subrange(i as int, i + n)[j as int] != needle@[j as int]);
            return false;
        }
        j = j + 1;
    }
    assert(haystack@.subrange(i as int, i + n) =~= needle@);
    true
}

/// Whether `needle` is a contiguous piece of `haystack`.
pub fn contains_chars(haystack: &Vec<char>, needle: &Vec<char>) -> (r: bool)
    ensures
        r == text_contains(haystack@, needle@),
{
    if needle.len() > haystack.len() {
        return false;
    }
    let last = haystack.len() - needle.len();
    let mut i: usize = 0;
    loop
        invariant
            last == haystack.len() - needle.len(),
            needle.len() <= haystack.len(),
            i <= last,
            forall|k: int| 0 <= k < i ==> !occurs_at(haystack@, needle@, k),
        decreases last - i,
    {
        if occurs_at_exec(haystack, needle, i) {
            return true;
        }
        if i == last {
            return false;
        }
        i = i + 1;
    }
}

/// Whether `needle` is a contiguous piece of `haystack`, as `str::contains` decides it.
pub fn contains_str(haystack: &str, needle: &str) -> (r: bool)
    ensures
        r == text_contains(haystack@, needle@),
{
    let h = chars_of(haystack);
    let n = chars_of(needle);
    contains_chars(&h, &n)
}

/// `ascii_fold` of one character.
fn ascii_fold_exec(c: char) -> (r: u32)
    ensures
        r == ascii_fold(c),
{
    let v = c as u32;
    if 65 <= v && v <= 90 {
        v + 32
    } else {
        v
    }
}

/// Equality of two strings with ASCII letters compared without case, as
/// `str::eq_ignore_ascii_case` decides it.
pub fn equals_ignore_ascii_case(a: &str, b: &str) -> (r: bool)
    ensures
        r == equal_ignoring_ascii_case(a@, b@),
{
    let x = chars_of(a);
    let y = chars_of(b);
    if x.len() != y.len() {
        return false;
    }
    let n = x.len();
    for i in 0..n
        invariant
            n == x.len(),
            n == y.len(),
            x@ == a@,
            y@ == b@,
            forall|k: int| 0 <= k < i ==> ascii_fold(#[trigger] x@[k]) == ascii_fold(y@[k]),
    {
        if ascii_fold_exec(x[i]) != ascii_fold_exec(y[i]) {
            return false;
        }
    }
    true
}

/// Removes `_` and `-` from `value` and lowercases every other character.
pub fn normalize_identifier_text(value: &str) -> (out: String)
    ensures
        out@ == normalized(value@),
        out@.len() == 0 ==> forall|i: int| 0 <= i < value@.len() ==> is_separator(#[trigger] value@[i]),
        is_ascii_text(value@) ==> out@ == ascii_normalized(value@),
{
    let chars = chars_of(value);
    let n = chars.len();
    let mut out = String::new();
    for i in 0..n
        invariant
            n == chars.len(),
            chars@ == value@,
            out@ == normalized(chars@.take(i as int)),
            out@.len() == 0 ==> forall|k: int| 0 <= k < i ==> is_separator(#[trigger] chars@[k]),
            is_ascii_text(chars@) ==> out@ == ascii_normalized(chars@.take(i as int)),
    {
        let ch = chars[i];
        assert(chars@.take(i + 1).drop_last() == chars@.take(i as int));
        assert(chars@.take(i + 1).last() == ch);
        if ch == '_' || ch == '-' {
            assert(out@ + normalized_piece(ch) == out@);
        } else {
            let lowered = lowercase_char(ch);
            let m = lowered.len();
            let ghost start = out@;
            proof {
                if is_ascii_text(chars@) {
                    assert((chars@[i as int] as u32) < 128);
                }
            }
            for j in 0..m
                invariant
                    m == lowered.len(),
                    lowered@ == char_lowercase(ch),
                    out@ == start + lowered@.take(j as int),
            {
                push_char(&mut out, lowered[j]);
                assert(lowered@.take(j + 1) == lowered@.take(j as int).push(lowered@[j as int]));
            }
            assert(lowered@.take(m as int) == lowered@);
            assert(out@.len() > 0);
        }
    }
    assert(chars@.take(n as int) == chars@);
    out
}

/// Whether a case-insensitive search succeeds, given both texts lowercased
/// and both texts normalised: the lowered needle occurs in the lowered
/// haystack, or the normalised needle is not empty and occurs in the
/// normalised haystack.
pub fn matches_folded(
    lower_haystack: &str,
    lower_needle: &str,
    normalized_haystack: &str,
    normalized_needle: &str,
) -> (r: bool)
    ensures
        r == (text_contains(lower_haystack@, lower_needle@) || (normalized_needle@.len() > 0
            && text_contains(normalized_haystack@, normalized_needle@))),
{
    if contains_str(lower_haystack, lower_needle) {
        return true;
    }
    if normalized_needle.is_empty() {
        return false;
    }
    contains_str(normalized_haystack, normalized_needle)
}

/// Whether `needle` matches `haystack`: literally when `case_sensitive`, otherwise
/// ignoring case, or ignoring case and the separators `_` and `-`.  A literal
/// occurrence always matches, in either mode; so does the empty needle.
pub fn matches_text(haystack: &str, needle: &str, case_sensitive: bool) -> (r: bool)
    ensures
        r == text_matches(haystack@, needle@, case_sensitive),
        text_contains(haystack@, needle@) ==> r,
        needle@.len() == 0 ==> r,
{
    proof {
        assert(occurs_at(haystack@, Seq::<char>::empty(), 0) || needle@.len() > 0) by {
            assert(haystack@.subrange(0, 0) =~= Seq::<char>::empty());
        }
        if needle@.len() == 0 {
            assert(needle@ =~= Seq::<char>::empty());
        }
    }
    if case_sensitive {
        return contains_str(haystack, needle);
    }
    let haystack_lower = lowercase_str(haystack);
    let needle_lower = lowercase_str(needle);
    let haystack_normalized = normalize_identifier_text(haystack);
    let needle_normalized = normalize_identifier_text(needle);
    let r = matches_folded(
        haystack_lower.as_str(),
        needle_lower.as_str(),
        haystack_normalized.as_str(),
        needle_normalized.as_str(),
    );
    proof {
        if text_contains(haystack@, needle@) {
            if needle_normalized@.len() > 0 {
                lemma_literal_match_is_insensitive_match(haystack@, needle@);
            } else {
                lemma_separator_needle_lowered(haystack@, needle@, haystack_lower@, needle_lower@);
            }
        }
    }
    r
}

/// A needle made of separators only stays itself when lowercased, and stays
/// in the lowercased haystack it occurs in.
proof fn lemma_separator_needle_lowered(haystack: Seq<char>, needle: Seq<char>, lower_haystack: Seq<char>, lower_needle: Seq<char>)
    requires
        forall|i: int| 0 <= i < needle.len() ==> is_separator(#[trigger] needle[i]),
        text_contains(haystack, needle),
        lowered_by_pieces(lower_haystack, haystack),
        lowered_by_pieces(lower_needle, needle),
    ensures
        text_contains(lower_haystack, lower_needle),
{
    let fnd = choose|finals: Seq<bool>| finals.len() == needle.len() && lower_needle == lowered_pieces(needle, finals);
    lemma_lowered_separators(needle, fnd);
    let fh = choose|finals: Seq<bool>| finals.len() == haystack.len() && lower_haystack == lowered_pieces(haystack, finals);
    let i = choose|i: int| occurs_at(haystack, needle, i);
    let j = i + needle.len();
    let before = haystack.subrange(0, i);
    let after = haystack.subrange(j, haystack.len() as int);
    assert(haystack =~= before + needle + after);
    let f1 = fh.subrange(0, i);
    let f2 = fh.subrange(i, j);
    let f3 = fh.subrange(j, haystack.len() as int);
    assert(fh =~= f1 + f2 + f3);
    lemma_lowered_pieces_concat(before + needle, after, f1 + f2, f3);
    lemma_lowered_pieces_concat(before, needle, f1, f2);
    lemma_lowered_separators(needle, f2);
    let x = lowered_pieces(before, f1);
    assert(lower_haystack == x + needle + lowered_pieces(after, f3));
    assert(lower_haystack.subrange(x.len() as int, (x.len() + needle.len()) as int) =~= needle);
    assert(occurs_at(lower_haystack, lower_needle, x.len() as int));
}

/// Lowercasing piece by piece distributes over concatenation.
pub proof fn lemma_lowered_pieces_concat(a: Seq<char>, b: Seq<char>, fa: Seq<bool>, fb: Seq<bool>)
    requires
        fa.len() == a.len(),
        fb.len() == b.len(),
    ensures
        lowered_pieces(a + b, fa + fb) == lowered_pieces(a, fa) + lowered_pieces(b, fb),
    decreases b.len(),
{
    if b.len() == 0 {
        assert(a + b =~= a);
        assert(fa + fb =~= fa);
        assert(lowered_pieces(a, fa) + lowered_pieces(b, fb) =~= lowered_pieces(a, fa));
    } else {
        assert((a + b).drop_last() =~= a + b.drop_last());
        assert((fa + fb).drop_last() =~= fa + fb.drop_last());
        assert((a + b).last() == b.last());
        assert((fa + fb).last() == fb.last());
        lemma_lowered_pieces_concat(a, b.drop_last(), fa, fb.drop_last());
        assert(lowered_pieces(a + b, fa + fb) =~= lowered_pieces(a, fa) + lowered_pieces(b, fb));
    }
}

/// Separators are unchanged by lowercasing.
pub proof fn lemma_lowered_separators(s: Seq<char>, finals: Seq<bool>)
    requires
        forall|i: int| 0 <= i < s.len() ==> is_separator(#[trigger] s[i]),
        finals.len() == s.len(),
    ensures
        lowered_pieces(s, finals) == s,
    decreases s.len(),
{
    if s.len() > 0 {
        assert forall|i: int| 0 <= i < s.drop_last().len() implies is_separator(#[trigger] s.drop_last()[i]) by {
            assert(s.drop_last()[i] == s[i]);
        }
        lemma_lowered_separators(s.drop_last(), finals.drop_last());
        let c = s.last();
        assert(is_separator(s[s.len() - 1]));
        assert(('_' as u32) == 95);
        assert(('-' as u32) == 45);
        assert(lower_piece(c, finals.last()) == seq![c]);
        assert(lowered_pieces(s, finals) =~= s);
    }
}

/// An ASCII text lowercases to its ASCII lower case, whatever the choice of
/// word-final forms.
pub proof fn lemma_lowered_ascii(s: Seq<char>, finals: Seq<bool>)
    requires
        is_ascii_text(s),
        finals.len() == s.len(),
    ensures
        lowered_pieces(s, finals) == ascii_lowercase(s),
    decreases s.len(),
{
    if s.len() > 0 {
        assert forall|i: int| 0 <= i < s.drop_last().len() implies (#[trigger] s.drop_last()[i] as u32) < 128 by {
            assert(s.drop_last()[i] == s[i]);
        }
        lemma_lowered_ascii(s.drop_last(), finals.drop_last());
        assert((s[s.len() - 1] as u32) < 128);
        assert(lowered_pieces(s, finals) =~= ascii_lowercase(s));
    } else {
        assert(lowered_pieces(s, finals) =~= ascii_lowercase(s));
    }
}

/// Whether two strings have the same characters.
pub fn equals_str(a: &str, b: &str) -> (r: bool)
    ensures
        r == (a@ == b@),
{
    let x = chars_of(a);
    let y = chars_of(b);
    if x.len() != y.len() {
        return false;
    }
    let n = x.len();
    for i in 0..n
        invariant
            n == x.len(),
            n == y.len(),
            x@ == a@,
            y@ == b@,
            forall|k: int| 0 <= k < i ==> x@[k] == y@[k],
    {
        if x[i] != y[i] {
            return false;
        }
    }
    assert(x@ =~= y@);
    true
}

/// Normalising a concatenation normalises each part.
pub proof fn lemma_normalized_concat(a: Seq<char>, b: Seq<char>)
    ensures
        normalized(a + b) == normalized(a) + normalized(b),
    decreases b.len(),
{
    if b.len() == 0 {
        assert(a + b =~= a);
        assert(normalized(a) + normalized(b) =~= normalized(a));
    } else {
        assert((a + b).drop_last() =~= a + b.drop_last());
        assert((a + b).last() == b.last());
        lemma_normalized_concat(a, b.drop_last());
        assert(normalized(a + b) =~= normalized(a) + normalized(b));
    }
}

/// A literal match is also a match without case: whenever `needle` occurs in
/// `haystack` and its normalised form is not empty, the case-insensitive
/// comparison accepts it too.
pub proof fn lemma_literal_match_is_insensitive_match(haystack: Seq<char>, needle: Seq<char>)
    requires
        text_matches(haystack, needle, true),
        normalized(needle).len() > 0,
    ensures
        text_matches(haystack, needle, false),
{
    let i = choose|i: int| occurs_at(haystack, needle, i);
    let before = haystack.subrange(0, i);
    let after = haystack.subrange(i + needle.len(), haystack.len() as int);
    assert(haystack =~= before + needle + after);
    lemma_normalized_concat(before, needle);
    lemma_normalized_concat(before + needle, after);
    let nb = normalized(before);
    assert(normalized(haystack) == nb + normalized(needle) + normalized(after));
    assert(occurs_at(normalized(haystack), normalized(needle), nb.len() as int)) by {
        assert(normalized(haystack).subrange(nb.len() as int, (nb.len() + normalized(needle).len()) as int) =~= normalized(needle));
    }
}

/// `ascii_fold` is the code of `ascii_lower`.
proof fn lemma_ascii_lower_code(c: char)
    ensures
        ascii_lower(c) as int == ascii_fold(c),
{
    let v = c as u32;
    if 65 <= v && v <= 90 {
        let w: u32 = (v + 32) as u32;
        assert(ascii_lower(c) == w as char);
        assert((w as char) as u32 == w);
    }
}

/// Texts that are equal when ASCII letters are compared without case have
/// the same ASCII lower case.
pub proof fn lemma_ascii_case_ignored(a: Seq<char>, b: Seq<char>)
    requires
        equal_ignoring_ascii_case(a, b),
    ensures
        ascii_lowercase(a) == ascii_lowercase(b),
{
    assert forall|i: int| 0 <= i < a.len() implies ascii_lowercase(a)[i] == ascii_lowercase(b)[i] by {
        lemma_ascii_lower_code(a[i]);
        lemma_ascii_lower_code(b[i]);
        assert(ascii_fold(a[i]) == ascii_fold(b[i]));
    }
    assert(ascii_lowercase(a) =~= ascii_lowercase(b));
}

/// Without `Σ` the word-final choices change nothing: a text without `Σ`
/// lowercases to `lowered_plain`.
pub proof fn lemma_lowered_without_sigma(s: Seq<char>, finals: Seq<bool>)
    requires
        !s.contains('Σ'),
        finals.len() == s.len(),
    ensures
        lowered_pieces(s, finals) == lowered_plain(s),
{
    lemma_finals_irrelevant(s, finals, Seq::new(s.len(), |i: int| false));
}

proof fn lemma_finals_irrelevant(s: Seq<char>, f: Seq<bool>, g: Seq<bool>)
    requires
        !s.contains('Σ'),
        f.len() == s.len(),
        g.len() == s.len(),
    ensures
        lowered_pieces(s, f) == lowered_pieces(s, g),
    decreases s.len(),
{
    if s.len() > 0 {
        assert(!s.drop_last().contains('Σ')) by {
            if s.drop_last().contains('Σ') {
                let i = choose|i: int| 0 <= i < s.drop_last().len() && s.drop_last()[i] == 'Σ';
                assert(s[i] == 'Σ');
            }
        }
        assert(s.last() != 'Σ') by {
            assert(s[s.len() - 1] == s.last());
        }
        lemma_finals_irrelevant(s.drop_last(), f.drop_last(), g.drop_last());
    }
}

/// Texts that are equal when ASCII letters are compared without case
/// lowercase alike, piece by piece, for the same word-final choices.
pub proof fn lemma_lowered_pieces_ignore_ascii_case(a: Seq<char>, b: Seq<char>, f: Seq<bool>)
    requires
        equal_ignoring_ascii_case(a, b),
        f.len() == a.len(),
    ensures
        lowered_pieces(a, f) == lowered_pieces(b, f),
    decreases a.len(),
{
    if a.len() > 0 {
        let n = a.len() - 1;
        assert(equal_ignoring_ascii_case(a.drop_last(), b.drop_last())) by {
            assert forall|i: int| 0 <= i < a.drop_last().len() implies ascii_fold(#[trigger] a.drop_last()[i]) == ascii_fold(b.drop_last()[i]) by {
                assert(a.drop_last()[i] == a[i]);
                assert(b.drop_last()[i] == b[i]);
            }
        }
        lemma_lowered_pieces_ignore_ascii_case(a.drop_last(), b.drop_last(), f.drop_last());
        let x = a[n];
        let y = b[n];
        assert(ascii_fold(x) == ascii_fold(y));
        lemma_ascii_lower_code(x);
        lemma_ascii_lower_code(y);
        assert(a.last() == x);
        assert(b.last() == y);
        if (x as u32) < 128 {
            assert((y as u32) < 128);
            assert(ascii_lower(x) == ascii_lower(y));
        } else {
            assert((y as u32) >= 128);
            assert(x as int == y as int);
            assert(x == y);
        }
    }
}

} // verus!
