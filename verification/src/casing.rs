//! Casing classification, word tokenization, and casing conversion.
//!
//! An identifier is labelled with one of five styles by trying a fixed list
//! of patterns in specificity order (Pascal, then the underscore-separated
//! styles, then a single lowercase run) and taking the first match.  Each
//! style has a deterministic tokenization rule that splits a classified
//! identifier into words, and a conversion rule that reassembles words into
//! any target style.  Reassembling the words of a classified identifier in
//! its own style reproduces the identifier exactly.

use vstd::prelude::*;

verus! {

/// The closed set of recognized identifier-naming styles.
#[derive(Clone, Copy, Debug, PartialEq, Eq, Structural)]
pub enum Casing {
    PascalCase,
    SnakeCase,
    TitleSnakeCase,
    ScreamingSnakeCase,
    LowerCase,
}

/// Failures of classification and tokenization.
///
/// `NoMatch` means no pattern accepted the identifier; `TokenizeMismatch`
/// means a style's tokenization rule could not consume the whole identifier.
#[derive(Clone, Copy, Debug, PartialEq, Eq, Structural)]
pub enum CasingError {
    NoMatch,
    TokenizeMismatch,
}

pub open spec fn is_low(c: char) -> bool {
    'a' <= c && c <= 'z'
}

pub open spec fn is_up(c: char) -> bool {
    'A' <= c && c <= 'Z'
}

pub open spec fn is_letter(c: char) -> bool {
    is_low(c) || is_up(c)
}

/// The lowercase counterpart of an ASCII letter; other characters unchanged.
pub open spec fn low_char(c: char) -> char {
    if is_up(c) {
        ((c as int) + 32) as char
    } else {
        c
    }
}

/// The uppercase counterpart of an ASCII letter; other characters unchanged.
pub open spec fn up_char(c: char) -> char {
    if is_low(c) {
        ((c as int) - 32) as char
    } else {
        c
    }
}

pub open spec fn low_seq(s: Seq<char>) -> Seq<char> {
    s.map_values(|c: char| low_char(c))
}

pub open spec fn up_seq(s: Seq<char>) -> Seq<char> {
    s.map_values(|c: char| up_char(c))
}

/// A word with its first letter uppercased and the remainder lowercased.
pub open spec fn cap_seq(s: Seq<char>) -> Seq<char> {
    if s.len() == 0 {
        s
    } else {
        seq![up_char(s[0])] + low_seq(s.skip(1))
    }
}

/// Whether `c` is an ASCII lowercase letter.
pub fn is_lowercase(input: char) -> (r: bool)
    ensures
        r == is_low(input),
{
    'a' <= input && input <= 'z'
}

/// Whether `c` is an ASCII uppercase letter.
pub fn is_uppercase(input: char) -> (r: bool)
    ensures
        r == is_up(input),
{
    'A' <= input && input <= 'Z'
}

/// Lowercase one character.
pub fn lower_char(c: char) -> (r: char)
    ensures
        r == low_char(c),
{
    if 'A' <= c && c <= 'Z' {
        ((c as u8) + 32) as char
    } else {
        c
    }
}

/// Uppercase one character.
pub fn upper_char(c: char) -> (r: char)
    ensures
        r == up_char(c),
{
    if 'a' <= c && c <= 'z' {
        ((c as u8) - 32) as char
    } else {
        c
    }
}

/// Relies on String::push: appends one character at the end of the string.
#[verifier::external_body]
pub fn push_char(s: &mut String, c: char)
    ensures
        final(s)@ == old(s)@.push(c),
{
    s.push(c);
}

pub open spec fn has_underscore(s: Seq<char>) -> bool {
    exists|i: int| 0 <= i < s.len() && #[trigger] s[i] == '_'
}

/// One or more words, each an uppercase letter followed by at least one
/// lowercase letter, concatenated without separators.
pub open spec fn is_pascal(s: Seq<char>) -> bool {
    &&& s.len() > 0
    &&& is_up(s[0])
    &&& forall|i: int| 0 <= i < s.len() ==> is_letter(s[i])
    &&& forall|i: int| 0 <= i < s.len() && is_up(#[trigger] s[i]) ==> i + 1 < s.len() && is_low(
        s[i + 1],
    )
}

/// The character class a style allows between underscores.
pub open spec fn shape_char_ok(c: char, style: Casing) -> bool {
    match style {
        Casing::SnakeCase => is_low(c) || c == '_',
        Casing::ScreamingSnakeCase => is_up(c) || c == '_',
        Casing::TitleSnakeCase => is_letter(c) || c == '_',
        _ => false,
    }
}

/// The extra conditions of the title style on the suffix of `s` from `i`:
/// segment leads are uppercase, every other letter is lowercase, and each
/// uppercase letter is followed by a lowercase one.
pub open spec fn title_case_ok(s: Seq<char>, i: int) -> bool {
    &&& (i < s.len() ==> is_up(s[i]))
    &&& (forall|j: int|
        i <= j < s.len() && #[trigger] s[j] == '_' && j + 1 < s.len() ==> is_up(s[j + 1]))
    &&& (forall|j: int| i < j < s.len() && is_up(#[trigger] s[j]) ==> s[j - 1] == '_')
    &&& (forall|j: int|
        i <= j < s.len() && is_up(#[trigger] s[j]) ==> j + 1 < s.len() && is_low(s[j + 1]))
}

/// The shape an underscore-separated style demands of the suffix of `s`
/// from `i`: the style's character class everywhere, underscores strictly
/// between segments, and, for the title style, `title_case_ok`.
pub open spec fn snake_suffix_ok(s: Seq<char>, i: int, style: Casing) -> bool {
    &&& (forall|j: int| i <= j < s.len() ==> shape_char_ok(s[j], style))
    &&& (forall|j: int|
        i <= j < s.len() && #[trigger] s[j] == '_' ==> i < j && j + 1 < s.len() && s[j + 1] != '_')
    &&& (i < s.len() ==> s[i] != '_')
    &&& (style is TitleSnakeCase ==> title_case_ok(s, i))
}

/// Nonempty all-lowercase segments joined by single underscores, with at
/// least one underscore.
pub open spec fn is_snake(s: Seq<char>) -> bool {
    s.len() > 0 && snake_suffix_ok(s, 0, Casing::SnakeCase) && has_underscore(s)
}

/// Nonempty all-uppercase segments joined by single underscores, with at
/// least one underscore.
pub open spec fn is_screaming_snake(s: Seq<char>) -> bool {
    s.len() > 0 && snake_suffix_ok(s, 0, Casing::ScreamingSnakeCase) && has_underscore(s)
}

/// Capitalized segments joined by single underscores, with at least one
/// underscore.
pub open spec fn is_title_snake(s: Seq<char>) -> bool {
    s.len() > 0 && snake_suffix_ok(s, 0, Casing::TitleSnakeCase) && has_underscore(s)
}

/// A single nonempty run of lowercase letters.
pub open spec fn is_lower_ident(s: Seq<char>) -> bool {
    s.len() > 0 && forall|i: int| 0 <= i < s.len() ==> is_low(s[i])
}

/// The first pattern, in specificity order, that accepts `s`.
pub open spec fn classify_spec(s: Seq<char>) -> Option<Casing> {
    if is_pascal(s) {
        Option::Some(Casing::PascalCase)
    } else if is_title_snake(s) {
        Option::Some(Casing::TitleSnakeCase)
    } else if is_screaming_snake(s) {
        Option::Some(Casing::ScreamingSnakeCase)
    } else if is_snake(s) {
        Option::Some(Casing::SnakeCase)
    } else if is_lower_ident(s) {
        Option::Some(Casing::LowerCase)
    } else {
        Option::None
    }
}

/// The first position at or after `i` that holds an underscore, or the
/// length of `s` if none follows.
pub open spec fn seg_end(s: Seq<char>, i: int) -> int
    decreases s.len() - i,
{
    if i < 0 || i >= s.len() {
        i
    } else if s[i] == '_' {
        i
    } else {
        seg_end(s, i + 1)
    }
}

pub proof fn lemma_seg_end(s: Seq<char>, i: int)
    requires
        0 <= i <= s.len(),
    ensures
        i <= seg_end(s, i) <= s.len(),
        forall|j: int| i <= j < seg_end(s, i) ==> s[j] != '_',
        seg_end(s, i) < s.len() ==> s[seg_end(s, i)] == '_',
    decreases s.len() - i,
{
    if i < s.len() && s[i] != '_' {
        lemma_seg_end(s, i + 1);
    }
}

#[via_fn]
proof fn split_from_decreases(s: Seq<char>, i: int) {
    if 0 <= i <= s.len() {
        lemma_seg_end(s, i);
    }
}

/// The segments of the suffix of `s` from `i`, split at every underscore.
/// Underscores themselves belong to no segment; adjacent underscores yield
/// empty segments.
pub open spec fn split_from(s: Seq<char>, i: int) -> Seq<Seq<char>>
    decreases s.len() - i,
    via split_from_decreases
{
    if i < 0 || i > s.len() {
        Seq::empty()
    } else {
        let k = seg_end(s, i);
        if k >= s.len() {
            seq![s.subrange(i, s.len() as int)]
        } else {
            seq![s.subrange(i, k)] + split_from(s, k + 1)
        }
    }
}

pub open spec fn split_words(s: Seq<char>) -> Seq<Seq<char>> {
    split_from(s, 0)
}

/// The first position at or after `i` that holds no lowercase letter, or
/// the length of `s` if lowercase letters run to the end.
pub open spec fn low_end(s: Seq<char>, i: int) -> int
    decreases s.len() - i,
{
    if i < 0 || i >= s.len() {
        i
    } else if is_low(s[i]) {
        low_end(s, i + 1)
    } else {
        i
    }
}

pub proof fn lemma_low_end(s: Seq<char>, i: int)
    requires
        0 <= i <= s.len(),
    ensures
        i <= low_end(s, i) <= s.len(),
        forall|j: int| i <= j < low_end(s, i) ==> is_low(s[j]),
        low_end(s, i) < s.len() ==> !is_low(s[low_end(s, i)]),
    decreases s.len() - i,
{
    if i < s.len() && is_low(s[i]) {
        lemma_low_end(s, i + 1);
    }
}

#[via_fn]
proof fn pascal_from_decreases(s: Seq<char>, i: int) {
    if 0 <= i < s.len() {
        lemma_low_end(s, i + 1);
    }
}

/// The words of the suffix of `s` from `i` under the Pascal rule: repeatedly
/// consume one uppercase letter and the run of lowercase letters after it.
/// `None` when a position holds anything but an uppercase letter, which
/// would leave characters unconsumed.
pub open spec fn pascal_from(s: Seq<char>, i: int) -> Option<Seq<Seq<char>>>
    decreases s.len() - i,
    via pascal_from_decreases
{
    if i < 0 || i >= s.len() {
        Option::Some(Seq::empty())
    } else if !is_up(s[i]) {
        Option::None
    } else {
        let k = low_end(s, i + 1);
        match pascal_from(s, k) {
            Option::Some(rest) => Option::Some(seq![s.subrange(i, k)] + rest),
            Option::None => Option::None,
        }
    }
}

/// What a style's tokenization rule demands of one underscore-separated
/// segment.
pub open spec fn seg_ok(w: Seq<char>, style: Casing) -> bool {
    match style {
        Casing::SnakeCase => w.len() > 0 && forall|j: int| 0 <= j < w.len() ==> is_low(w[j]),
        Casing::ScreamingSnakeCase => w.len() > 0 && forall|j: int|
            0 <= j < w.len() ==> is_up(w[j]),
        Casing::TitleSnakeCase => w.len() > 0 && is_up(w[0]) && forall|j: int|
            1 <= j < w.len() ==> is_low(w[j]),
        _ => false,
    }
}

pub open spec fn all_segs_ok(ws: Seq<Seq<char>>, style: Casing) -> bool {
    forall|k: int| 0 <= k < ws.len() ==> seg_ok(#[trigger] ws[k], style)
}

/// The words a style's rule yields for `s`, or `None` when the rule leaves
/// characters unconsumed (a classifier/tokenizer disagreement).
pub open spec fn tokenize_spec(s: Seq<char>, style: Casing) -> Option<Seq<Seq<char>>> {
    match style {
        Casing::PascalCase => if s.len() > 0 {
            pascal_from(s, 0)
        } else {
            Option::None
        },
        Casing::LowerCase => if is_lower_ident(s) {
            Option::Some(seq![s])
        } else {
            Option::None
        },
        _ => if s.len() > 0 && all_segs_ok(split_words(s), style) {
            Option::Some(split_words(s))
        } else {
            Option::None
        },
    }
}

/// Words joined by `sep`.
pub open spec fn join(ws: Seq<Seq<char>>, sep: Seq<char>) -> Seq<char>
    decreases ws.len(),
{
    if ws.len() == 0 {
        Seq::empty()
    } else if ws.len() == 1 {
        ws[0]
    } else {
        ws[0] + sep + join(ws.drop_first(), sep)
    }
}

/// How a target style cases one word.
pub open spec fn styled_word(w: Seq<char>, style: Casing) -> Seq<char> {
    match style {
        Casing::PascalCase => cap_seq(w),
        Casing::TitleSnakeCase => cap_seq(w),
        Casing::SnakeCase => low_seq(w),
        Casing::LowerCase => low_seq(w),
        Casing::ScreamingSnakeCase => up_seq(w),
    }
}

/// The delimiter a target style joins words with.
pub open spec fn style_sep(style: Casing) -> Seq<char> {
    match style {
        Casing::SnakeCase => seq!['_'],
        Casing::TitleSnakeCase => seq!['_'],
        Casing::ScreamingSnakeCase => seq!['_'],
        _ => Seq::empty(),
    }
}

/// Reassembling words in a target style: case each word by the style and
/// join with its delimiter.
pub open spec fn convert_spec(ws: Seq<Seq<char>>, style: Casing) -> Seq<char> {
    join(ws.map_values(|w: Seq<char>| styled_word(w, style)), style_sep(style))
}

/// Classify, tokenize under the classified style, and reassemble in
/// lower snake: the pipeline that normalizes an identifier into an
/// attribute key.
pub open spec fn parse_spec(s: Seq<char>) -> Option<Seq<char>> {
    match classify_spec(s) {
        Option::Some(st) => match tokenize_spec(s, st) {
            Option::Some(ws) => Option::Some(convert_spec(ws, Casing::SnakeCase)),
            Option::None => Option::None,
        },
        Option::None => Option::None,
    }
}

fn check_pascal(s: &str) -> (b: bool)
    ensures
        b == is_pascal(s@),
{
    let n = s.unicode_len();
    if n == 0 {
        return false;
    }
    if !is_uppercase(s.get_char(0)) {
        return false;
    }
    let mut i: usize = 0;
    while i < n
        invariant
            0 <= i <= n,
            n == s@.len(),
            is_up(s@[0]),
            forall|j: int| 0 <= j < i ==> is_letter(s@[j]),
            forall|j: int|
                0 <= j < i && is_up(#[trigger] s@[j]) ==> j + 1 < s@.len() && is_low(s@[j + 1]),
        decreases n - i,
    {
        let c = s.get_char(i);
        if !is_lowercase(c) && !is_uppercase(c) {
            return false;
        }
        if is_uppercase(c) {
            if i + 1 >= n {
                return false;
            }
            if !is_lowercase(s.get_char(i + 1)) {
                return false;
            }
        }
        i += 1;
    }
    true
}

fn check_snake_shape(s: &str, style: Casing) -> (b: bool)
    requires
        style is SnakeCase || style is ScreamingSnakeCase || style is TitleSnakeCase,
    ensures
        b == (s@.len() > 0 && snake_suffix_ok(s@, 0, style) && has_underscore(s@)),
{
    let n = s.unicode_len();
    if n == 0 {
        return false;
    }
    if s.get_char(0) == '_' {
        return false;
    }
    if style == Casing::TitleSnakeCase && !is_uppercase(s.get_char(0)) {
        return false;
    }
    let mut seen_underscore: bool = false;
    let mut i: usize = 0;
    while i < n
        invariant
            0 <= i <= n,
            n == s@.len(),
            s@[0] != '_',
            style is SnakeCase || style is ScreamingSnakeCase || style is TitleSnakeCase,
            style is TitleSnakeCase ==> is_up(s@[0]),
            forall|j: int| 0 <= j < i ==> shape_char_ok(s@[j], style),
            forall|j: int|
                0 <= j < i && #[trigger] s@[j] == '_' ==> 0 < j && j + 1 < s@.len() && s@[j + 1]
                    != '_',
            seen_underscore == exists|j: int| 0 <= j < i && #[trigger] s@[j] == '_',
            style is TitleSnakeCase ==> forall|j: int|
                0 <= j < i && #[trigger] s@[j] == '_' && j + 1 < s@.len() ==> is_up(s@[j + 1]),
            style is TitleSnakeCase ==> forall|j: int|
                0 < j < i && is_up(#[trigger] s@[j]) ==> s@[j - 1] == '_',
            style is TitleSnakeCase ==> forall|j: int|
                0 <= j < i && is_up(#[trigger] s@[j]) ==> j + 1 < s@.len() && is_low(s@[j + 1]),
        decreases n - i,
    {
        let c = s.get_char(i);
        let class_ok = match style {
            Casing::SnakeCase => is_lowercase(c) || c == '_',
            Casing::ScreamingSnakeCase => is_uppercase(c) || c == '_',
            _ => is_lowercase(c) || is_uppercase(c) || c == '_',
        };
        if !class_ok {
            return false;
        }
        if c == '_' {
            if i + 1 >= n {
                return false;
            }
            let next = s.get_char(i + 1);
            if next == '_' {
                return false;
            }
            if style == Casing::TitleSnakeCase && !is_uppercase(next) {
                return false;
            }
            seen_underscore = true;
        }
        if style == Casing::TitleSnakeCase && is_uppercase(c) {
            if i > 0 && s.get_char(i - 1) != '_' {
                return false;
            }
            if i + 1 >= n {
                return false;
            }
            if !is_lowercase(s.get_char(i + 1)) {
                return false;
            }
        }
        i += 1;
    }
    seen_underscore
}

fn check_lower(s: &str) -> (b: bool)
    ensures
        b == is_lower_ident(s@),
{
    let n = s.unicode_len();
    if n == 0 {
        return false;
    }
    let mut i: usize = 0;
    while i < n
        invariant
            0 <= i <= n,
            n == s@.len(),
            forall|j: int| 0 <= j < i ==> is_low(s@[j]),
        decreases n - i,
    {
        if !is_lowercase(s.get_char(i)) {
            return false;
        }
        i += 1;
    }
    true
}

/// A word extracted from an identifier: its text and the position in the
/// identifier where it starts.
#[derive(Debug)]
pub struct Word {
    pub text: String,
    pub start: usize,
}

pub open spec fn word_texts(ws: Seq<Word>) -> Seq<Seq<char>> {
    ws.map_values(|w: Word| w.text@)
}

/// The word's text is the substring of `s` at its recorded position.
pub open spec fn word_at(s: Seq<char>, w: Word) -> bool {
    w.start + w.text@.len() <= s.len() && s.subrange(
        w.start as int,
        w.start + w.text@.len(),
    ) == w.text@
}

fn scan_segment(s: &str, i: usize) -> (k: usize)
    requires
        i <= s@.len(),
    ensures
        i <= k <= s@.len(),
        k == seg_end(s@, i as int),
{
    let n = s.unicode_len();
    let mut j: usize = i;
    loop
        invariant
            i <= j <= n,
            n == s@.len(),
            seg_end(s@, i as int) == seg_end(s@, j as int),
        ensures
            i <= j <= n && j == seg_end(s@, i as int),
        decreases n - j,
    {
        if j >= n {
            break ;
        }
        if s.get_char(j) == '_' {
            break ;
        }
        proof {
            assert(seg_end(s@, j as int) == seg_end(s@, j + 1 as int));
        }
        j += 1;
    }
    j
}

fn scan_lows(s: &str, i: usize) -> (k: usize)
    requires
        i <= s@.len(),
    ensures
        i <= k <= s@.len(),
        k == low_end(s@, i as int),
{
    let n = s.unicode_len();
    let mut j: usize = i;
    loop
        invariant
            i <= j <= n,
            n == s@.len(),
            low_end(s@, i as int) == low_end(s@, j as int),
        ensures
            i <= j <= n && j == low_end(s@, i as int),
        decreases n - j,
    {
        if j >= n {
            break ;
        }
        if !is_lowercase(s.get_char(j)) {
            break ;
        }
        proof {
            assert(low_end(s@, j as int) == low_end(s@, j + 1 as int));
        }
        j += 1;
    }
    j
}

fn check_seg(s: &str, i: usize, k: usize, style: Casing) -> (b: bool)
    requires
        i <= k <= s@.len(),
        style is SnakeCase || style is ScreamingSnakeCase || style is TitleSnakeCase,
    ensures
        b == seg_ok(s@.subrange(i as int, k as int), style),
{
    let ghost w = s@.subrange(i as int, k as int);
    if i == k {
        return false;
    }
    let mut j: usize = i;
    if style == Casing::TitleSnakeCase {
        if !is_uppercase(s.get_char(i)) {
            return false;
        }
        j = i + 1;
    }
    while j < k
        invariant
            i <= j <= k <= s@.len(),
            w == s@.subrange(i as int, k as int),
            i < k,
            style is SnakeCase || style is ScreamingSnakeCase || style is TitleSnakeCase,
            style is TitleSnakeCase ==> is_up(s@[i as int]) && j >= i + 1,
            style is SnakeCase ==> forall|q: int| i <= q < j ==> is_low(s@[q]),
            style is ScreamingSnakeCase ==> forall|q: int| i <= q < j ==> is_up(s@[q]),
            style is TitleSnakeCase ==> forall|q: int| i + 1 <= q < j ==> is_low(s@[q]),
        decreases k - j,
    {
        let c = s.get_char(j);
        let ok = match style {
            Casing::ScreamingSnakeCase => is_uppercase(c),
            _ => is_lowercase(c),
        };
        if !ok {
            proof {
                assert(w[j - i] == s@[j as int]);
            }
            return false;
        }
        j += 1;
    }
    proof {
        assert(forall|q: int| 0 <= q < w.len() ==> w[q] == s@[i + q]);
    }
    true
}

fn split_tail(s: &str, i: usize, style: Casing) -> (r: Result<Vec<Word>, CasingError>)
    requires
        i <= s@.len(),
        style is SnakeCase || style is ScreamingSnakeCase || style is TitleSnakeCase,
    ensures
        (r is Ok) == all_segs_ok(split_from(s@, i as int), style),
        r matches Ok(words) ==> word_texts(words@) == split_from(s@, i as int),
        r matches Ok(words) ==> forall|q: int|
            0 <= q < words@.len() ==> word_at(s@, #[trigger] words@[q]),
        r matches Ok(words) ==> words@.len() > 0 && words@[0].start == i,
        r matches Ok(words) ==> forall|q: int|
            0 <= q < words@.len() - 1 ==> (#[trigger] words@[q + 1]).start == words@[q].start
                + words@[q].text@.len() + 1,
        r matches Err(e) ==> e == CasingError::TokenizeMismatch,
    decreases s@.len() - i,
{
    let n = s.unicode_len();
    let k = scan_segment(s, i);
    proof {
        lemma_seg_end(s@, i as int);
    }
    let ghost first = s@.subrange(i as int, k as int);
    if !check_seg(s, i, k, style) {
        proof {
            if k >= n {
                assert(split_from(s@, i as int)[0] == first);
            } else {
                assert(split_from(s@, i as int)[0] == first);
            }
        }
        return Err(CasingError::TokenizeMismatch);
    }
    let word = Word { text: s.substring_char(i, k).to_owned(), start: i };
    if k == n {
        let words: Vec<Word> = vec![word];
        proof {
            let ws = split_from(s@, i as int);
            assert(ws == seq![first]);
            assert(word_texts(words@) =~= ws);
            assert(s@.subrange(i as int, i + first.len()) == first);
        }
        Ok(words)
    } else {
        let rest = split_tail(s, k + 1, style);
        proof {
            assert(split_from(s@, i as int) == seq![first] + split_from(s@, k + 1 as int));
        }
        let ghost tail = split_from(s@, k + 1 as int);
        let ghost full = split_from(s@, i as int);
        match rest {
            Err(e) => {
                proof {
                    let bad = choose|q: int| 0 <= q < tail.len() && !seg_ok(tail[q], style);
                    if all_segs_ok(full, style) {
                        assert(full[bad + 1] == tail[bad]);
                        assert(false);
                    }
                }
                Err(e)
            },
            Ok(mut words) => {
                let ghost before = words@;
                words.insert(0, word);
                proof {
                    assert(word_texts(words@) =~= full);
                    assert(forall|q: int|
                        0 <= q < full.len() ==> seg_ok(#[trigger] full[q], style) == (if q == 0 {
                            seg_ok(first, style)
                        } else {
                            seg_ok(tail[q - 1], style)
                        }));
                    assert(s@.subrange(i as int, i + first.len()) == first);
                    assert(words@ =~= seq![word] + before);
                    assert(forall|q: int|
                        1 <= q < words@.len() ==> #[trigger] words@[q] == before[q - 1]);
                    assert forall|q: int| 0 <= q < words@.len() - 1 implies (#[trigger] words@[q
                        + 1]).start == words@[q].start + words@[q].text@.len() + 1 by {
                        assert(words@[0] == word);
                        assert(word.start == i);
                        assert(word.text@.len() == k - i);
                        if q == 0 {
                            assert(words@[1] == before[0]);
                            assert(before[0].start == k + 1);
                        } else {
                            assert(words@[q + 1] == before[q]);
                            assert(words@[q] == before[q - 1]);
                            let qm = q - 1;
                            assert(before[qm + 1].start == before[qm].start + before[qm].text@.len()
                                + 1);
                        }
                    }
                }
                Ok(words)
            },
        }
    }
}

fn pascal_tail(s: &str, i: usize) -> (r: Result<Vec<Word>, CasingError>)
    requires
        i <= s@.len(),
    ensures
        (r is Ok) == (pascal_from(s@, i as int) is Some),
        r matches Ok(words) ==> word_texts(words@) == pascal_from(s@, i as int)->Some_0,
        r matches Ok(words) ==> forall|q: int|
            0 <= q < words@.len() ==> word_at(s@, #[trigger] words@[q]),
        i < s@.len() ==> (r matches Ok(words) ==> words@.len() > 0 && words@[0].start == i),
        r matches Ok(words) ==> forall|q: int|
            0 <= q < words@.len() - 1 ==> (#[trigger] words@[q + 1]).start == words@[q].start
                + words@[q].text@.len(),
        r matches Err(e) ==> e == CasingError::TokenizeMismatch,
    decreases s@.len() - i,
{
    let n = s.unicode_len();
    if i >= n {
        let words: Vec<Word> = Vec::new();
        proof {
            assert(word_texts(words@) =~= pascal_from(s@, i as int)->Some_0);
        }
        return Ok(words);
    }
    if !is_uppercase(s.get_char(i)) {
        return Err(CasingError::TokenizeMismatch);
    }
    let k = scan_lows(s, i + 1);
    proof {
        lemma_low_end(s@, i + 1 as int);
    }
    let ghost first = s@.subrange(i as int, k as int);
    let rest = pascal_tail(s, k);
    match rest {
        Err(e) => Err(e),
        Ok(mut words) => {
            let word = Word { text: s.substring_char(i, k).to_owned(), start: i };
            let ghost before = words@;
            words.insert(0, word);
            proof {
                assert(word_texts(words@) =~= pascal_from(s@, i as int)->Some_0);
                assert(s@.subrange(i as int, i + first.len()) == first);
                assert(words@ =~= seq![word] + before);
                assert(forall|q: int|
                    1 <= q < words@.len() ==> #[trigger] words@[q] == before[q - 1]);
                assert forall|q: int| 0 <= q < words@.len() - 1 implies (#[trigger] words@[q
                    + 1]).start == words@[q].start + words@[q].text@.len() by {
                    assert(words@[0] == word);
                    assert(word.text@.len() == k - i);
                    if q == 0 {
                        assert(words@[1] == before[0]);
                        assert(k < s@.len());
                        assert(before[0].start == k);
                    } else {
                        assert(words@[q + 1] == before[q]);
                        assert(words@[q] == before[q - 1]);
                        let qm = q - 1;
                        assert(before[qm + 1].start == before[qm].start + before[qm].text@.len());
                    }
                }
            }
            Ok(words)
        },
    }
}

/// Split `identifier` into words by `style`'s rule.  Fails with
/// `TokenizeMismatch` when the rule cannot consume the whole identifier,
/// which signals a classifier/tokenizer disagreement; characters are never
/// silently dropped.
pub fn tokenize(identifier: &str, style: Casing) -> (r: Result<Vec<Word>, CasingError>)
    ensures
        (r is Ok) == (tokenize_spec(identifier@, style) is Some),
        r matches Ok(words) ==> word_texts(words@) == tokenize_spec(identifier@, style)->Some_0,
        r matches Ok(words) ==> forall|q: int|
            0 <= q < words@.len() ==> word_at(identifier@, #[trigger] words@[q]),
        r matches Ok(words) ==> words@.len() > 0 && words@[0].start == 0,
        r matches Ok(words) ==> forall|q: int|
            0 <= q < words@.len() - 1 ==> (#[trigger] words@[q + 1]).start == words@[q].start
                + words@[q].text@.len() + (if style_sep(style).len() > 0 {
                1int
            } else {
                0int
            }),
        r matches Err(e) ==> e == CasingError::TokenizeMismatch,
{
    let n = identifier.unicode_len();
    if n == 0 {
        return Err(CasingError::TokenizeMismatch);
    }
    match style {
        Casing::PascalCase => pascal_tail(identifier, 0),
        Casing::LowerCase => {
            if check_lower(identifier) {
                let word = Word { text: identifier.to_owned(), start: 0 };
                let words: Vec<Word> = vec![word];
                proof {
                    assert(word_texts(words@) =~= seq![identifier@]);
                    assert(identifier@.subrange(0, identifier@.len() as int) == identifier@);
                }
                Ok(words)
            } else {
                Err(CasingError::TokenizeMismatch)
            }
        },
        _ => split_tail(identifier, 0, style),
    }
}

fn lower_str(w: &str) -> (r: String)
    ensures
        r@ == low_seq(w@),
{
    let n = w.unicode_len();
    let mut out = String::new();
    let mut i: usize = 0;
    while i < n
        invariant
            0 <= i <= n,
            n == w@.len(),
            out@ == low_seq(w@.take(i as int)),
        decreases n - i,
    {
        let c = lower_char(w.get_char(i));
        push_char(&mut out, c);
        proof {
            assert(low_seq(w@.take(i + 1 as int)) =~= low_seq(w@.take(i as int)).push(
                low_char(w@[i as int]),
            ));
        }
        i += 1;
    }
    proof {
        assert(w@.take(n as int) =~= w@);
    }
    out
}

fn upper_str(w: &str) -> (r: String)
    ensures
        r@ == up_seq(w@),
{
    let n = w.unicode_len();
    let mut out = String::new();
    let mut i: usize = 0;
    while i < n
        invariant
            0 <= i <= n,
            n == w@.len(),
            out@ == up_seq(w@.take(i as int)),
        decreases n - i,
    {
        let c = upper_char(w.get_char(i));
        push_char(&mut out, c);
        proof {
            assert(up_seq(w@.take(i + 1 as int)) =~= up_seq(w@.take(i as int)).push(
                up_char(w@[i as int]),
            ));
        }
        i += 1;
    }
    proof {
        assert(w@.take(n as int) =~= w@);
    }
    out
}

fn cap_str(w: &str) -> (r: String)
    ensures
        r@ == cap_seq(w@),
{
    let n = w.unicode_len();
    if n == 0 {
        return String::new();
    }
    let mut out = String::new();
    push_char(&mut out, upper_char(w.get_char(0)));
    let mut i: usize = 1;
    while i < n
        invariant
            1 <= i <= n,
            n == w@.len(),
            out@ == seq![up_char(w@[0])] + low_seq(w@.subrange(1, i as int)),
        decreases n - i,
    {
        let c = lower_char(w.get_char(i));
        push_char(&mut out, c);
        proof {
            assert(seq![up_char(w@[0])] + low_seq(w@.subrange(1, i + 1 as int)) =~= (seq![
                up_char(w@[0]),
            ] + low_seq(w@.subrange(1, i as int))).push(low_char(w@[i as int])));
        }
        i += 1;
    }
    proof {
        assert(w@.skip(1) =~= w@.subrange(1, n as int));
    }
    out
}

fn styled(w: &str, target: Casing) -> (r: String)
    ensures
        r@ == styled_word(w@, target),
{
    match target {
        Casing::PascalCase => cap_str(w),
        Casing::TitleSnakeCase => cap_str(w),
        Casing::SnakeCase => lower_str(w),
        Casing::LowerCase => lower_str(w),
        Casing::ScreamingSnakeCase => upper_str(w),
    }
}

fn convert_tail(words: &Vec<Word>, i: usize, target: Casing) -> (r: String)
    requires
        i <= words@.len(),
    ensures
        r@ == convert_spec(word_texts(words@.skip(i as int)), target),
    decreases words@.len() - i,
{
    let ghost ws = word_texts(words@.skip(i as int)).map_values(
        |w: Seq<char>| styled_word(w, target),
    );
    if i >= words.len() {
        proof {
            assert(ws.len() == 0);
        }
        return String::new();
    }
    let first = styled(words[i].text.as_str(), target);
    proof {
        assert(ws[0] == styled_word(words@[i as int].text@, target));
    }
    if i + 1 == words.len() {
        proof {
            assert(ws.len() == 1);
        }
        first
    } else {
        let rest = convert_tail(words, i + 1, target);
        let mut out = first;
        match target {
            Casing::SnakeCase => out.append("_"),
            Casing::TitleSnakeCase => out.append("_"),
            Casing::ScreamingSnakeCase => out.append("_"),
            _ => (),
        }
        out.append(rest.as_str());
        proof {
            reveal_strlit("_");
            assert("_"@ =~= seq!['_']);
            assert(ws.drop_first() =~= word_texts(words@.skip(i + 1 as int)).map_values(
                |w: Seq<char>| styled_word(w, target),
            ));
            assert(out@ == ws[0] + style_sep(target) + join(ws.drop_first(), style_sep(target)));
        }
        out
    }
}

/// Reassemble `words` in the target style: case each word by the style's
/// rule and join with its delimiter (underscore for the snake variants,
/// nothing for Pascal and lowercase).
pub fn convert(words: &Vec<Word>, target: Casing) -> (r: String)
    ensures
        r@ == convert_spec(word_texts(words@), target),
{
    let r = convert_tail(words, 0, target);
    proof {
        assert(words@.skip(0) =~= words@);
    }
    r
}

/// Label `identifier` with the first style whose pattern accepts it,
/// trying Pascal, then title snake, then screaming snake, then snake, then
/// a single lowercase run.  Fails with `NoMatch` when no pattern accepts
/// it; the empty string always fails.
pub fn classify(identifier: &str) -> (r: Result<Casing, CasingError>)
    ensures
        r == (match classify_spec(identifier@) {
            Option::Some(c) => Result::<Casing, CasingError>::Ok(c),
            Option::None => Result::<Casing, CasingError>::Err(CasingError::NoMatch),
        }),
{
    if check_pascal(identifier) {
        Ok(Casing::PascalCase)
    } else if check_snake_shape(identifier, Casing::TitleSnakeCase) {
        Ok(Casing::TitleSnakeCase)
    } else if check_snake_shape(identifier, Casing::ScreamingSnakeCase) {
        Ok(Casing::ScreamingSnakeCase)
    } else if check_snake_shape(identifier, Casing::SnakeCase) {
        Ok(Casing::SnakeCase)
    } else if check_lower(identifier) {
        Ok(Casing::LowerCase)
    } else {
        Err(CasingError::NoMatch)
    }
}

/// The failure report of `find_casing`: remembers the string whose casing
/// could not be determined.
#[derive(Clone, Debug)]
pub struct CasingParseError {
    pub failed_str: String,
}

impl CasingParseError {
    pub fn new(failed_str: &str) -> (r: CasingParseError)
        ensures
            r.failed_str@ == failed_str@,
    {
        CasingParseError { failed_str: failed_str.to_owned() }
    }

    /// The human-readable description of the failure.
    pub fn message(&self) -> (r: String)
        ensures
            r@ == "Could not determine case for string "@ + self.failed_str@,
    {
        let mut out = String::from_str("Could not determine case for string ");
        out.append(self.failed_str.as_str());
        out
    }
}

/// Classify `input`, reporting failure with the offending string attached.
pub fn find_casing(input: &str) -> (r: Result<Casing, CasingParseError>)
    ensures
        classify_spec(input@) matches Option::Some(c) ==> (r matches Ok(rc) && rc == c),
        classify_spec(input@) is None ==> (r matches Err(e) && e.failed_str@ == input@),
{
    match classify(input) {
        Ok(c) => Ok(c),
        Err(_) => Err(CasingParseError::new(input)),
    }
}

fn to_lower_snake(input: &str, style: Casing) -> (r: Result<String, CasingError>)
    ensures
        (r is Ok) == (tokenize_spec(input@, style) is Some),
        r matches Ok(text) ==> text@ == convert_spec(
            tokenize_spec(input@, style)->Some_0,
            Casing::SnakeCase,
        ),
        r matches Err(e) ==> e == CasingError::TokenizeMismatch,
{
    match tokenize(input, style) {
        Ok(words) => Ok(convert(&words, Casing::SnakeCase)),
        Err(e) => Err(e),
    }
}

impl Casing {
    /// Tokenize `input` under this style and reassemble the words in lower
    /// snake casing.
    pub fn parse(&self, input: &str) -> (r: Result<String, CasingError>)
        ensures
            (r is Ok) == (tokenize_spec(input@, *self) is Some),
            r matches Ok(text) ==> text@ == convert_spec(
                tokenize_spec(input@, *self)->Some_0,
                Casing::SnakeCase,
            ),
            r matches Err(e) ==> e == CasingError::TokenizeMismatch,
    {
        match self {
            Casing::PascalCase => Self::parse_pascal(input),
            Casing::SnakeCase => Self::parse_snake(input),
            Casing::TitleSnakeCase => Self::parse_title_snake(input),
            Casing::ScreamingSnakeCase => Self::parse_screaming_snake(input),
            Casing::LowerCase => Self::parse_lower(input),
        }
    }

    pub fn parse_pascal(input: &str) -> (r: Result<String, CasingError>)
        ensures
            (r is Ok) == (tokenize_spec(input@, Casing::PascalCase) is Some),
            r matches Ok(text) ==> text@ == convert_spec(
                tokenize_spec(input@, Casing::PascalCase)->Some_0,
                Casing::SnakeCase,
            ),
            r matches Err(e) ==> e == CasingError::TokenizeMismatch,
    {
        to_lower_snake(input, Casing::PascalCase)
    }

    pub fn parse_snake(input: &str) -> (r: Result<String, CasingError>)
        ensures
            (r is Ok) == (tokenize_spec(input@, Casing::SnakeCase) is Some),
            r matches Ok(text) ==> text@ == convert_spec(
                tokenize_spec(input@, Casing::SnakeCase)->Some_0,
                Casing::SnakeCase,
            ),
            r matches Err(e) ==> e == CasingError::TokenizeMismatch,
    {
        to_lower_snake(input, Casing::SnakeCase)
    }

    pub fn parse_title_snake(input: &str) -> (r: Result<String, CasingError>)
        ensures
            (r is Ok) == (tokenize_spec(input@, Casing::TitleSnakeCase) is Some),
            r matches Ok(text) ==> text@ == convert_spec(
                tokenize_spec(input@, Casing::TitleSnakeCase)->Some_0,
                Casing::SnakeCase,
            ),
            r matches Err(e) ==> e == CasingError::TokenizeMismatch,
    {
        to_lower_snake(input, Casing::TitleSnakeCase)
    }

    pub fn parse_screaming_snake(input: &str) -> (r: Result<String, CasingError>)
        ensures
            (r is Ok) == (tokenize_spec(input@, Casing::ScreamingSnakeCase) is Some),
            r matches Ok(text) ==> text@ == convert_spec(
                tokenize_spec(input@, Casing::ScreamingSnakeCase)->Some_0,
                Casing::SnakeCase,
            ),
            r matches Err(e) ==> e == CasingError::TokenizeMismatch,
    {
        to_lower_snake(input, Casing::ScreamingSnakeCase)
    }

    pub fn parse_lower(input: &str) -> (r: Result<String, CasingError>)
        ensures
            (r is Ok) == (tokenize_spec(input@, Casing::LowerCase) is Some),
            r matches Ok(text) ==> text@ == convert_spec(
                tokenize_spec(input@, Casing::LowerCase)->Some_0,
                Casing::SnakeCase,
            ),
            r matches Err(e) ==> e == CasingError::TokenizeMismatch,
    {
        to_lower_snake(input, Casing::LowerCase)
    }
}

/// Normalize an identifier into lower snake casing: classify it, tokenize
/// it under the classified style, and reassemble the words joined by
/// underscores.  Fails with `NoMatch` when no pattern accepts the
/// identifier and with `TokenizeMismatch` when the classified style cannot
/// consume it whole.
pub fn parse(input: &str) -> (r: Result<String, CasingError>)
    ensures
        (r is Ok) == (parse_spec(input@) is Some),
        r matches Ok(text) ==> text@ == parse_spec(input@)->Some_0,
        r matches Err(e) ==> (e == CasingError::NoMatch <==> classify_spec(input@) is None),
{
    match classify(input) {
        Err(e) => Err(e),
        Ok(style) => style.parse(input),
    }
}

proof fn lemma_pascal_round_trip_from(s: Seq<char>, i: int)
    requires
        0 <= i <= s.len(),
        forall|j: int| i <= j < s.len() ==> is_letter(s[j]),
        i < s.len() ==> is_up(s[i]),
        forall|j: int|
            i <= j < s.len() && is_up(#[trigger] s[j]) ==> j + 1 < s.len() && is_low(s[j + 1]),
    ensures
        pascal_from(s, i) is Some,
        convert_spec(pascal_from(s, i)->Some_0, Casing::PascalCase) == s.subrange(
            i,
            s.len() as int,
        ),
    decreases s.len() - i,
{
    if i >= s.len() {
        assert(pascal_from(s, i)->Some_0.map_values(
            |x: Seq<char>| styled_word(x, Casing::PascalCase),
        ).len() == 0);
        assert(s.subrange(i, s.len() as int) =~= Seq::<char>::empty());
    } else {
        let k = low_end(s, i + 1);
        lemma_low_end(s, i + 1);
        lemma_pascal_round_trip_from(s, k);
        let w = s.subrange(i, k);
        assert(forall|q: int| 0 <= q < w.len() ==> w[q] == s[i + q]);
        assert(low_seq(w.skip(1)) =~= w.skip(1));
        assert(cap_seq(w) =~= w);
        let ws = pascal_from(s, i)->Some_0;
        let rest = pascal_from(s, k)->Some_0;
        assert(ws == seq![w] + rest);
        let mws = ws.map_values(|x: Seq<char>| styled_word(x, Casing::PascalCase));
        let mrest = rest.map_values(|x: Seq<char>| styled_word(x, Casing::PascalCase));
        assert(mws.drop_first() =~= mrest);
        assert(mws[0] == cap_seq(w));
        if k >= s.len() {
            assert(rest.len() == 0);
            assert(mws.len() == 1);
            assert(join(mws, style_sep(Casing::PascalCase)) == w);
            assert(s.subrange(i, s.len() as int) == w);
        } else {
            assert(rest.len() > 0);
            assert(mws.len() > 1);
            assert(join(mws, Seq::<char>::empty()) == mws[0] + Seq::<char>::empty() + join(
                mrest,
                Seq::<char>::empty(),
            ));
            assert(w + Seq::<char>::empty() + s.subrange(k, s.len() as int) =~= s.subrange(
                i,
                s.len() as int,
            ));
        }
    }
}

proof fn lemma_snake_round_trip_from(s: Seq<char>, i: int, style: Casing)
    requires
        style is SnakeCase || style is ScreamingSnakeCase || style is TitleSnakeCase,
        0 <= i < s.len(),
        snake_suffix_ok(s, i, style),
    ensures
        all_segs_ok(split_from(s, i), style),
        convert_spec(split_from(s, i), style) == s.subrange(i, s.len() as int),
    decreases s.len() - i,
{
    let k = seg_end(s, i);
    lemma_seg_end(s, i);
    let w = s.subrange(i, k);
    assert(forall|q: int| 0 <= q < w.len() ==> w[q] == s[i + q]);
    assert(w.len() > 0) by {
        if k == i {
            assert(s[i] != '_');
        }
    }
    assert(seg_ok(w, style)) by {
        if style is TitleSnakeCase {
            assert(is_up(w[0]));
            assert forall|q: int| 1 <= q < w.len() implies is_low(w[q]) by {
                assert(w[q] == s[i + q]);
                assert(s[i + q] != '_');
                assert(shape_char_ok(s[i + q], style));
                if is_up(s[i + q]) {
                    assert(s[i + q - 1] == '_');
                    assert(i <= i + q - 1 < k);
                    assert(false);
                }
            }
        } else {
            assert forall|q: int| 0 <= q < w.len() implies shape_char_ok(w[q], style) && w[q]
                != '_' by {
                assert(w[q] == s[i + q]);
            }
        }
    }
    assert(styled_word(w, style) =~= w) by {
        if style is TitleSnakeCase {
            assert(low_seq(w.skip(1)) =~= w.skip(1));
        } else if style is SnakeCase {
            assert(low_seq(w) =~= w);
        } else {
            assert(up_seq(w) =~= w);
        }
    }
    let ws = split_from(s, i);
    let mws = ws.map_values(|x: Seq<char>| styled_word(x, style));
    if k >= s.len() {
        assert(ws == seq![s.subrange(i, s.len() as int)]);
        assert(mws.len() == 1);
        assert(join(mws, style_sep(style)) == styled_word(w, style));
        assert(s.subrange(i, s.len() as int) == w);
    } else {
        assert(s[k] == '_');
        assert(k + 1 < s.len());
        assert(s[k + 1] != '_');
        assert(snake_suffix_ok(s, k + 1, style)) by {
            if style is TitleSnakeCase {
                assert(is_up(s[k + 1]));
            }
        }
        lemma_snake_round_trip_from(s, k + 1, style);
        let rest = split_from(s, k + 1);
        assert(ws == seq![w] + rest);
        let mrest = rest.map_values(|x: Seq<char>| styled_word(x, style));
        assert(mws.drop_first() =~= mrest);
        assert(mws[0] == styled_word(w, style));
        assert(rest.len() > 0) by {
            lemma_seg_end(s, k + 1);
        }
        assert(mws.len() > 1);
        assert(all_segs_ok(ws, style)) by {
            assert(forall|q: int|
                0 <= q < ws.len() ==> #[trigger] ws[q] == (if q == 0 {
                    w
                } else {
                    rest[q - 1]
                }));
        }
        assert(join(mws, style_sep(style)) == mws[0] + style_sep(style) + join(
            mrest,
            style_sep(style),
        ));
        assert(w + seq!['_'] + s.subrange(k + 1, s.len() as int) =~= s.subrange(
            i,
            s.len() as int,
        ));
    }
}

/// Round-trip law: for every identifier accepted by classification,
/// tokenizing it under its classified style and reassembling the words in
/// that same style reproduces the identifier exactly.
pub proof fn lemma_round_trip(s: Seq<char>)
    requires
        classify_spec(s) is Some,
    ensures
        tokenize_spec(s, classify_spec(s)->Some_0) is Some,
        convert_spec(
            tokenize_spec(s, classify_spec(s)->Some_0)->Some_0,
            classify_spec(s)->Some_0,
        ) == s,
{
    let style = classify_spec(s)->Some_0;
    assert(s.subrange(0, s.len() as int) =~= s);
    if is_pascal(s) {
        lemma_pascal_round_trip_from(s, 0);
    } else if is_title_snake(s) {
        lemma_snake_round_trip_from(s, 0, Casing::TitleSnakeCase);
    } else if is_screaming_snake(s) {
        lemma_snake_round_trip_from(s, 0, Casing::ScreamingSnakeCase);
    } else if is_snake(s) {
        lemma_snake_round_trip_from(s, 0, Casing::SnakeCase);
    } else {
        let ws = tokenize_spec(s, style)->Some_0;
        assert(ws == seq![s]);
        let mws = ws.map_values(|x: Seq<char>| styled_word(x, style));
        assert(mws.len() == 1);
        assert(mws[0] == low_seq(s));
        assert(low_seq(s) =~= s);
        assert(join(mws, style_sep(style)) == low_seq(s));
    }
}

/// Classification is stable: it is a function of the identifier alone, so
/// two classifications of equal identifiers agree.
pub proof fn lemma_classify_stable(s1: Seq<char>, s2: Seq<char>)
    requires
        s1 == s2,
    ensures
        classify_spec(s1) == classify_spec(s2),
{
}

/// Concatenate the two halves of a split word.
pub fn combine_to_one(input: (&str, &str)) -> (r: String)
    ensures
        r@ == input.0@ + input.1@,
{
    let mut out = input.0.to_owned();
    out.append(input.1);
    out
}

/// Where the Pascal word starting at `from` ends: the uppercase letter at
/// `from` and the run of lowercase letters after it make one word.
pub fn word_starting_with_upper(s: &str, from: usize) -> (end: usize)
    requires
        from < s@.len(),
        is_up(s@[from as int]),
    ensures
        end == low_end(s@, from + 1),
        from < end <= s@.len(),
        forall|j: int| from + 1 <= j < end ==> is_low(s@[j]),
{
    let n: usize = s.unicode_len();
    proof {
        assert(from + 1 <= n);
        lemma_low_end(s@, from + 1 as int);
    }
    scan_lows(s, from + 1)
}

/// The characters of `s` in the chosen case, each with its position.
pub open spec fn case_chars_from(s: Seq<char>, i: int, upper: bool) -> Seq<(usize, char)>
    decreases s.len() - i,
{
    if i < 0 || i >= s.len() {
        Seq::empty()
    } else {
        let rest = case_chars_from(s, i + 1, upper);
        if (if upper {
            is_up(s[i])
        } else {
            is_low(s[i])
        }) {
            seq![(i as usize, s[i])] + rest
        } else {
            rest
        }
    }
}

fn case_chars_tail(s: &str, i: usize, upper: bool) -> (r: Vec<(usize, char)>)
    requires
        i <= s@.len(),
    ensures
        r@ == case_chars_from(s@, i as int, upper),
    decreases s@.len() - i,
{
    if i >= s.unicode_len() {
        let r: Vec<(usize, char)> = Vec::new();
        proof {
            assert(r@ =~= case_chars_from(s@, i as int, upper));
        }
        return r;
    }
    let c = s.get_char(i);
    let mut rest = case_chars_tail(s, i + 1, upper);
    let keep = if upper {
        is_uppercase(c)
    } else {
        is_lowercase(c)
    };
    if keep {
        rest.insert(0, (i, c));
        proof {
            assert(rest@ =~= seq![(i, s@[i as int])] + case_chars_from(s@, i + 1 as int, upper));
        }
    }
    rest
}

/// The uppercase characters of `s`, each with its position.
pub fn get_upper_case_chars(input: &str) -> (r: Vec<(usize, char)>)
    ensures
        r@ == case_chars_from(input@, 0, true),
{
    case_chars_tail(input, 0, true)
}

/// The lowercase characters of `s`, each with its position.
pub fn get_lower_case_chars(input: &str) -> (r: Vec<(usize, char)>)
    ensures
        r@ == case_chars_from(input@, 0, false),
{
    case_chars_tail(input, 0, false)
}

} // verus!
