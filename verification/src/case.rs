//! Case styles for generated names: snake_case, camelCase, PascalCase,
//! kebab-case, and lower or upper case with underscores.

use crate::text::{
    ascii_lower, ascii_lower_seq, ascii_upper, char_is_alnum, char_is_upper, char_to_lower,
    char_to_upper, chars_of, is_ascii_alnum, is_ascii_text, is_ascii_upper, replace_char,
    string_of,
};
use vstd::prelude::*;

verus! {

/// The lowercase form of a text as Unicode defines it: what `str::to_lowercase`
/// returns.
pub uninterp spec fn unicode_lowercase(s: Seq<char>) -> Seq<char>;

/// `str::to_lowercase` returns the Unicode lowercase form of the slice, which
/// depends on its characters alone. Of a slice that holds ASCII characters
/// only it is the ASCII lowercase form: the letters A to Z become a to z, and
/// every other ASCII character stays.
pub assume_specification[ str::to_lowercase ](s: &str) -> (r: String)
    ensures
        r@ == unicode_lowercase(s@),
        is_ascii_text(s@) ==> r@ == ascii_lower_seq(s@),
;

/// How a generated name is written.
#[derive(Clone, Copy, Debug, PartialEq, Eq, Structural)]
pub enum CaseStyle {
    Snake,
    Camel,
    Pascal,
    Kebab,
    Lower,
    Upper,
}

/// Which case the letters of a separated name take.
#[derive(Clone, Copy, Debug, PartialEq, Eq, Structural)]
pub enum LetterCase {
    Lower,
    Upper,
}

/// The style that a name in lowercase stands for; snake_case where it stands
/// for none.
pub open spec fn style_of_name(lowered: Seq<char>) -> CaseStyle {
    if lowered == "snakecase"@ || lowered == "snake_case"@ {
        CaseStyle::Snake
    } else if lowered == "camelcase"@ || lowered == "camel_case"@ {
        CaseStyle::Camel
    } else if lowered == "pascalcase"@ || lowered == "pascal_case"@ {
        CaseStyle::Pascal
    } else if lowered == "kebabcase"@ || lowered == "kebab_case"@ {
        CaseStyle::Kebab
    } else if lowered == "lowercase"@ {
        CaseStyle::Lower
    } else if lowered == "uppercase"@ {
        CaseStyle::Upper
    } else {
        CaseStyle::Snake
    }
}

/// A space, a hyphen or an underscore.
pub open spec fn is_separator(c: char) -> bool {
    c == ' ' || c == '-' || c == '_'
}

/// The letter in the given case.
pub open spec fn in_letter_case(c: char, letters: LetterCase) -> char {
    match letters {
        LetterCase::Lower => ascii_lower(c),
        LetterCase::Upper => ascii_upper(c),
    }
}

/// What a left-to-right scan has written, and what it remembers of the last
/// character that it did not drop.
pub struct Scan {
    pub out: Seq<char>,
    pub prev_upper: bool,
    pub prev_separator: bool,
}

/// The scan after one more character. A letter or digit is written in the
/// given case; with `split_words`, an underscore goes before an uppercase
/// letter that is not the first character and follows neither an uppercase
/// letter nor a separator. A separator writes one underscore unless nothing
/// is written yet or the last character was a separator too. Any other
/// character is dropped and leaves the scan as it was.
pub open spec fn scan_step(
    scan: Scan,
    c: char,
    first: bool,
    split_words: bool,
    letters: LetterCase,
) -> Scan {
    if is_ascii_alnum(c) {
        let starts_word = split_words && is_ascii_upper(c) && !first && !scan.prev_upper
            && !scan.prev_separator;
        let out = if starts_word {
            scan.out.push('_')
        } else {
            scan.out
        };
        Scan {
            out: out.push(in_letter_case(c, letters)),
            prev_upper: is_ascii_upper(c),
            prev_separator: false,
        }
    } else if is_separator(c) {
        let out = if !scan.prev_separator && scan.out.len() > 0 {
            scan.out.push('_')
        } else {
            scan.out
        };
        Scan { out, prev_upper: false, prev_separator: true }
    } else {
        scan
    }
}

/// The scan of a whole text, from its first character to its last.
pub open spec fn scan_of(s: Seq<char>, split_words: bool, letters: LetterCase) -> Scan
    decreases s.len(),
{
    if s.len() == 0 {
        Scan { out: Seq::empty(), prev_upper: false, prev_separator: false }
    } else {
        scan_step(
            scan_of(s.drop_last(), split_words, letters),
            s.last(),
            s.len() == 1,
            split_words,
            letters,
        )
    }
}

/// `s` without the underscore that it ends with, if it ends with one.
pub open spec fn without_trailing_underscore(s: Seq<char>) -> Seq<char> {
    if s.len() > 0 && s.last() == '_' {
        s.drop_last()
    } else {
        s
    }
}

/// Words separated by single underscores, with the letters in the given
/// case; with `split_words`, an uppercase letter begins a word.
pub open spec fn separated(s: Seq<char>, split_words: bool, letters: LetterCase) -> Seq<char> {
    without_trailing_underscore(scan_of(s, split_words, letters).out)
}

pub open spec fn snake_case(s: Seq<char>) -> Seq<char> {
    separated(s, true, LetterCase::Lower)
}

pub open spec fn kebab_case(s: Seq<char>) -> Seq<char> {
    replace_char(snake_case(s), '_', '-')
}

/// The words of `rest`, the first of them continuing `current`: a word is a
/// run of ASCII letters and digits that no longer run contains.
pub open spec fn words_from(current: Seq<char>, rest: Seq<char>) -> Seq<Seq<char>>
    decreases rest.len(),
{
    let finished = if current.len() > 0 {
        seq![current]
    } else {
        Seq::empty()
    };
    if rest.len() == 0 {
        finished
    } else if is_ascii_alnum(rest[0]) {
        words_from(current.push(rest[0]), rest.drop_first())
    } else {
        finished + words_from(Seq::empty(), rest.drop_first())
    }
}

/// The words of a text.
pub open spec fn words_of(s: Seq<char>) -> Seq<Seq<char>> {
    words_from(Seq::empty(), s)
}

/// The word with its first letter in uppercase and the others in lowercase.
pub open spec fn capitalized(word: Seq<char>) -> Seq<char> {
    if word.len() == 0 {
        word
    } else {
        seq![ascii_upper(word[0])] + ascii_lower_seq(word.drop_first())
    }
}

/// The words joined with nothing between them, each capitalized but the first,
/// which is all in lowercase.
pub open spec fn camel_joined(words: Seq<Seq<char>>) -> Seq<char>
    decreases words.len(),
{
    if words.len() == 0 {
        Seq::empty()
    } else if words.len() == 1 {
        ascii_lower_seq(words[0])
    } else {
        camel_joined(words.drop_last()) + capitalized(words.last())
    }
}

/// The words joined with nothing between them, each capitalized.
pub open spec fn pascal_joined(words: Seq<Seq<char>>) -> Seq<char>
    decreases words.len(),
{
    if words.len() == 0 {
        Seq::empty()
    } else {
        pascal_joined(words.drop_last()) + capitalized(words.last())
    }
}

pub open spec fn camel_case(s: Seq<char>) -> Seq<char> {
    camel_joined(words_of(s))
}

pub open spec fn pascal_case(s: Seq<char>) -> Seq<char> {
    pascal_joined(words_of(s))
}

/// The text in the given style.
pub open spec fn converted(s: Seq<char>, style: CaseStyle) -> Seq<char> {
    match style {
        CaseStyle::Snake => snake_case(s),
        CaseStyle::Camel => camel_case(s),
        CaseStyle::Pascal => pascal_case(s),
        CaseStyle::Kebab => kebab_case(s),
        CaseStyle::Lower => separated(s, false, LetterCase::Lower),
        CaseStyle::Upper => separated(s, false, LetterCase::Upper),
    }
}

/// The views of the strings, in order.
pub open spec fn views(words: Seq<String>) -> Seq<Seq<char>> {
    Seq::new(words.len(), |i: int| words[i]@)
}

fn char_in_case(c: char, letters: LetterCase) -> (r: char)
    ensures
        r == in_letter_case(c, letters),
{
    match letters {
        LetterCase::Lower => char_to_lower(c),
        LetterCase::Upper => char_to_upper(c),
    }
}

fn separate(input: &str, split_words: bool, letters: LetterCase) -> (r: String)
    ensures
        r@ == separated(input@, split_words, letters),
{
    let chars = chars_of(input);
    let mut out: Vec<char> = Vec::new();
    let mut prev_upper = false;
    let mut prev_separator = false;
    let mut i: usize = 0;
    while i < chars.len()
        invariant
            i <= chars.len(),
            scan_of(chars@.take(i as int), split_words, letters) == (Scan {
                out: out@,
                prev_upper,
                prev_separator,
            }),
        decreases chars.len() - i,
    {
        let c = chars[i];
        proof {
            assert(chars@.take(i + 1).drop_last() == chars@.take(i as int));
            assert(chars@.take(i + 1).last() == c);
        }
        if char_is_alnum(c) {
            let upper = char_is_upper(c);
            if split_words && upper && i > 0 && !prev_upper && !prev_separator {
                out.push('_');
            }
            out.push(char_in_case(c, letters));
            prev_upper = upper;
            prev_separator = false;
        } else if c == ' ' || c == '-' || c == '_' {
            if !prev_separator && out.len() > 0 {
                out.push('_');
            }
            prev_upper = false;
            prev_separator = true;
        }
        i += 1;
    }
    assert(chars@.take(chars@.len() as int) == chars@);
    if out.len() > 0 && out[out.len() - 1] == '_' {
        out.pop();
    }
    string_of(&out)
}

/// Lowercase words separated by single underscores; an uppercase letter
/// begins a word.
pub fn to_snake_case(input: &str) -> (r: String)
    ensures
        r@ == snake_case(input@),
{
    separate(input, true, LetterCase::Lower)
}

/// Words separated by single underscores, with every letter in the given
/// case; only spaces, hyphens and underscores separate words.
pub fn normalize_to_underscore_case(input: &str, letters: LetterCase) -> (r: String)
    ensures
        r@ == separated(input@, false, letters),
{
    separate(input, false, letters)
}

/// The snake_case form with a hyphen in place of each underscore.
pub fn to_kebab_case(input: &str) -> (r: String)
    ensures
        r@ == kebab_case(input@),
{
    let snake = chars_of(to_snake_case(input).as_str());
    let mut out: Vec<char> = Vec::new();
    let mut i: usize = 0;
    while i < snake.len()
        invariant
            i <= snake.len(),
            out@.len() == i,
            forall|j: int| 0 <= j < i ==> out@[j] == replace_char(snake@, '_', '-')[j],
        decreases snake.len() - i,
    {
        let c = snake[i];
        out.push(if c == '_' {
            '-'
        } else {
            c
        });
        i += 1;
    }
    assert(out@ =~= replace_char(snake@, '_', '-'));
    string_of(&out)
}

/// The words of a text: its runs of ASCII letters and digits.
pub fn split_into_words(input: &str) -> (words: Vec<String>)
    ensures
        views(words@) == words_of(input@),
{
    let chars = chars_of(input);
    let mut words: Vec<String> = Vec::new();
    let mut current: Vec<char> = Vec::new();
    let mut i: usize = 0;
    assert(views(words@) =~= Seq::<Seq<char>>::empty());
    assert(chars@.skip(0) == chars@);
    while i < chars.len()
        invariant
            i <= chars.len(),
            words_of(chars@) == views(words@) + words_from(current@, chars@.skip(i as int)),
        decreases chars.len() - i,
    {
        let c = chars[i];
        proof {
            assert(chars@.skip(i as int).drop_first() == chars@.skip(i + 1));
            assert(chars@.skip(i as int)[0] == c);
        }
        let ghost before = views(words@);
        let ghost later = words_from(Seq::empty(), chars@.skip(i + 1));
        if char_is_alnum(c) {
            current.push(c);
        } else if current.len() > 0 {
            let ghost word_view = current@;
            let word = string_of(&current);
            words.push(word);
            assert(views(words@) =~= before + seq![word_view]);
            assert(before + (seq![word_view] + later) =~= before + seq![word_view] + later);
            current = Vec::new();
        } else {
            assert(current@ =~= Seq::<char>::empty());
            assert(before + (Seq::<Seq<char>>::empty() + later) =~= before + later);
        }
        i += 1;
    }
    if current.len() > 0 {
        let ghost before = views(words@);
        let word = string_of(&current);
        words.push(word);
        assert(views(words@) =~= before + seq![current@]);
    }
    words
}

/// The word with its first letter in uppercase and the others in lowercase.
pub fn capitalize_word(word: &str) -> (r: String)
    ensures
        r@ == capitalized(word@),
{
    let chars = chars_of(word);
    let mut out: Vec<char> = Vec::new();
    let mut i: usize = 0;
    while i < chars.len()
        invariant
            i <= chars.len(),
            out@.len() == i,
            forall|j: int| 0 <= j < i ==> out@[j] == capitalized(chars@)[j],
        decreases chars.len() - i,
    {
        let c = chars[i];
        out.push(if i == 0 {
            char_to_upper(c)
        } else {
            char_to_lower(c)
        });
        i += 1;
    }
    assert(out@ =~= capitalized(chars@));
    string_of(&out)
}

fn lowercase_word(word: &str) -> (r: Vec<char>)
    ensures
        r@ == ascii_lower_seq(word@),
{
    crate::text::to_ascii_lower(&chars_of(word))
}

/// The words joined with nothing between them: the first in lowercase, each
/// other one capitalized.
pub fn to_camel_case(input: &str) -> (r: String)
    ensures
        r@ == camel_case(input@),
{
    let words = split_into_words(input);
    let mut out: Vec<char> = Vec::new();
    let mut i: usize = 0;
    assert(views(words@).take(0) =~= Seq::<Seq<char>>::empty());
    while i < words.len()
        invariant
            i <= words.len(),
            out@ == camel_joined(views(words@).take(i as int)),
        decreases words.len() - i,
    {
        proof {
            let upto = views(words@).take(i + 1);
            assert(upto.drop_last() == views(words@).take(i as int));
            assert(upto.last() == words@[i as int]@);
        }
        if i == 0 {
            out = lowercase_word(words[i].as_str());
        } else {
            let word = capitalize_word(words[i].as_str());
            crate::text::push_all(&mut out, &chars_of(word.as_str()));
        }
        i += 1;
    }
    assert(views(words@).take(words@.len() as int) == views(words@));
    string_of(&out)
}

/// The words joined with nothing between them, each capitalized.
pub fn to_pascal_case(input: &str) -> (r: String)
    ensures
        r@ == pascal_case(input@),
{
    let words = split_into_words(input);
    let mut out: Vec<char> = Vec::new();
    let mut i: usize = 0;
    assert(views(words@).take(0) =~= Seq::<Seq<char>>::empty());
    while i < words.len()
        invariant
            i <= words.len(),
            out@ == pascal_joined(views(words@).take(i as int)),
        decreases words.len() - i,
    {
        proof {
            let upto = views(words@).take(i + 1);
            assert(upto.drop_last() == views(words@).take(i as int));
            assert(upto.last() == words@[i as int]@);
        }
        let word = capitalize_word(words[i].as_str());
        crate::text::push_all(&mut out, &chars_of(word.as_str()));
        i += 1;
    }
    assert(views(words@).take(words@.len() as int) == views(words@));
    string_of(&out)
}

/// The style that a name stands for, the name being in lowercase already.
pub fn case_style_from_lowercase(lowered: &str) -> (style: CaseStyle)
    ensures
        style == style_of_name(lowered@),
{
    if lowered.eq("snakecase") || lowered.eq("snake_case") {
        CaseStyle::Snake
    } else if lowered.eq("camelcase") || lowered.eq("camel_case") {
        CaseStyle::Camel
    } else if lowered.eq("pascalcase") || lowered.eq("pascal_case") {
        CaseStyle::Pascal
    } else if lowered.eq("kebabcase") || lowered.eq("kebab_case") {
        CaseStyle::Kebab
    } else if lowered.eq("lowercase") {
        CaseStyle::Lower
    } else if lowered.eq("uppercase") {
        CaseStyle::Upper
    } else {
        CaseStyle::Snake
    }
}

/// The text in the given style.
pub fn convert_case(input: &str, style: CaseStyle) -> (r: String)
    ensures
        r@ == converted(input@, style),
{
    match style {
        CaseStyle::Snake => to_snake_case(input),
        CaseStyle::Camel => to_camel_case(input),
        CaseStyle::Pascal => to_pascal_case(input),
        CaseStyle::Kebab => to_kebab_case(input),
        CaseStyle::Lower => normalize_to_underscore_case(input, LetterCase::Lower),
        CaseStyle::Upper => normalize_to_underscore_case(input, LetterCase::Upper),
    }
}

/// The text in the style that `case_style` names, whatever the case of that
/// name's letters; in snake_case where it names no style. A name in ASCII is
/// read by its ASCII lowercase form.
pub fn apply_case_conversion(input: &str, case_style: &str) -> (r: String)
    ensures
        r@ == converted(input@, style_of_name(unicode_lowercase(case_style@))),
        is_ascii_text(case_style@) ==> r@ == converted(
            input@,
            style_of_name(ascii_lower_seq(case_style@)),
        ),
{
    let lowered = case_style.to_lowercase();
    convert_case(input, case_style_from_lowercase(lowered.as_str()))
}

/// A text as snake_case writes it: lowercase letters, digits and underscores,
/// with no underscore at its beginning or its end and no two underscores in
/// a row.
pub open spec fn is_snake(t: Seq<char>) -> bool {
    &&& well_separated(t)
    &&& t.len() > 0 ==> t[0] != '_' && t.last() != '_'
}

/// Lowercase letters, digits and underscores, with no two underscores in a
/// row.
pub open spec fn well_separated(t: Seq<char>) -> bool {
    &&& forall|i: int|
        0 <= i < t.len() ==> crate::text::is_ascii_lower(#[trigger] t[i])
            || crate::text::is_ascii_digit(t[i]) || t[i] == '_'
    &&& forall|i: int| 0 < i < t.len() ==> !(t[i - 1] == '_' && #[trigger] t[i] == '_')
}

/// A well separated text stays so with one more character, unless that makes
/// two underscores in a row.
proof fn lemma_push_well_separated(out: Seq<char>, c: char)
    requires
        well_separated(out),
        crate::text::is_ascii_lower(c) || crate::text::is_ascii_digit(c) || c == '_',
        c == '_' && out.len() > 0 ==> out.last() != '_',
    ensures
        well_separated(out.push(c)),
{
    let longer = out.push(c);
    assert forall|i: int| 0 <= i < longer.len() implies crate::text::is_ascii_lower(
        #[trigger] longer[i],
    ) || crate::text::is_ascii_digit(longer[i]) || longer[i] == '_' by {
        if i < out.len() {
            assert(longer[i] == out[i]);
        }
    }
    assert forall|i: int| 0 < i < longer.len() implies !(longer[i - 1] == '_'
        && #[trigger] longer[i] == '_') by {
        if i < out.len() {
            assert(longer[i] == out[i]);
            assert(longer[i - 1] == out[i - 1]);
        } else {
            assert(longer[i - 1] == out.last());
        }
    }
}

/// What a scan for snake_case has written is well separated, and where it
/// ends with an underscore the last character was a separator.
pub proof fn lemma_scan_well_separated(s: Seq<char>)
    ensures
        well_separated(scan_of(s, true, LetterCase::Lower).out),
        ({
            let scan = scan_of(s, true, LetterCase::Lower);
            scan.out.len() > 0 && scan.out.last() == '_' ==> scan.prev_separator
        }),
    decreases s.len(),
{
    if s.len() > 0 {
        lemma_scan_well_separated(s.drop_last());
        let before = scan_of(s.drop_last(), true, LetterCase::Lower);
        let c = s.last();
        let after = scan_of(s, true, LetterCase::Lower);
        assert(after == scan_step(before, c, s.len() == 1, true, LetterCase::Lower));
        if is_ascii_alnum(c) {
            let letter = in_letter_case(c, LetterCase::Lower);
            assert(crate::text::is_ascii_lower(letter) || crate::text::is_ascii_digit(letter));
            if after.out.len() == before.out.len() + 2 {
                lemma_push_well_separated(before.out, '_');
                lemma_push_well_separated(before.out.push('_'), letter);
            } else {
                lemma_push_well_separated(before.out, letter);
            }
        } else if is_separator(c) && !before.prev_separator && before.out.len() > 0 {
            lemma_push_well_separated(before.out, '_');
        }
    }
}

/// A text of ASCII letters, digits, spaces, hyphens and underscores.
pub open spec fn is_plain_text(s: Seq<char>) -> bool {
    forall|i: int| 0 <= i < s.len() ==> is_ascii_alnum(#[trigger] s[i]) || is_separator(s[i])
}

/// The scan of a plain text for snake_case writes no underscore first; while
/// it has written nothing, the last character was a separator.
pub proof fn lemma_scan_begins_with_letter(s: Seq<char>)
    requires
        is_plain_text(s),
    ensures
        ({
            let scan = scan_of(s, true, LetterCase::Lower);
            &&& scan.out.len() > 0 ==> scan.out[0] != '_'
            &&& scan.out.len() == 0 && s.len() > 0 ==> scan.prev_separator
        }),
    decreases s.len(),
{
    if s.len() > 0 {
        let front = s.drop_last();
        assert(is_plain_text(front)) by {
            assert forall|i: int| 0 <= i < front.len() implies is_ascii_alnum(#[trigger] front[i])
                || is_separator(front[i]) by {
                assert(front[i] == s[i]);
            }
        }
        lemma_scan_begins_with_letter(front);
        let before = scan_of(front, true, LetterCase::Lower);
        let c = s.last();
        let after = scan_of(s, true, LetterCase::Lower);
        assert(after == scan_step(before, c, s.len() == 1, true, LetterCase::Lower));
        assert(is_ascii_alnum(c) || is_separator(c));
        if is_ascii_alnum(c) {
            let letter = in_letter_case(c, LetterCase::Lower);
            assert(letter != '_');
            if before.out.len() > 0 {
                assert(after.out[0] == before.out[0]);
            } else {
                assert(after.out == before.out.push(letter));
            }
        } else if before.out.len() > 0 {
            assert(after.out[0] == before.out[0]);
        }
    }
}

/// The scan of the beginning of a text in snake_case writes that beginning.
proof fn lemma_scan_of_snake_prefix(t: Seq<char>, i: int)
    requires
        is_snake(t),
        0 <= i <= t.len(),
    ensures
        scan_of(t.take(i), true, LetterCase::Lower) == (Scan {
            out: t.take(i),
            prev_upper: false,
            prev_separator: i > 0 && t[i - 1] == '_',
        }),
    decreases i,
{
    if i == 0 {
        assert(t.take(0) =~= Seq::<char>::empty());
    } else {
        lemma_scan_of_snake_prefix(t, i - 1);
        let c = t[i - 1];
        assert(t.take(i).drop_last() == t.take(i - 1));
        assert(t.take(i).last() == c);
        assert(t.take(i) == t.take(i - 1).push(c));
        assert(crate::text::is_ascii_lower(c) || crate::text::is_ascii_digit(c) || c == '_');
        if c == '_' {
            assert(i - 1 > 0) by {
                if i - 1 == 0 {
                    assert(t[0] == '_');
                }
            }
            assert(!(t[i - 2] == '_' && t[i - 1] == '_'));
        }
    }
}

/// A text in snake_case stays as it is.
pub proof fn lemma_snake_case_keeps_snake(t: Seq<char>)
    requires
        is_snake(t),
    ensures
        snake_case(t) == t,
{
    lemma_scan_of_snake_prefix(t, t.len() as int);
    assert(t.take(t.len() as int) == t);
}

/// Writing a text in snake_case twice gives what writing it once gives,
/// unless the first result begins with an underscore (which the second one
/// drops).
pub proof fn lemma_snake_case_idempotent(s: Seq<char>)
    requires
        snake_case(s).len() > 0 ==> snake_case(s)[0] != '_',
    ensures
        is_snake(snake_case(s)),
        snake_case(snake_case(s)) == snake_case(s),
{
    lemma_scan_well_separated(s);
    let out = scan_of(s, true, LetterCase::Lower).out;
    let once = snake_case(s);
    if out.len() > 0 && out.last() == '_' {
        assert(once == out.drop_last());
        if once.len() > 0 {
            assert(once.last() == out[out.len() - 2]);
            assert(!(out[out.len() - 2] == '_' && out[out.len() - 1] == '_'));
        }
        assert forall|i: int| 0 < i < once.len() implies !(once[i - 1] == '_' && #[trigger] once[i]
            == '_') by {
            assert(once[i] == out[i]);
            assert(once[i - 1] == out[i - 1]);
        }
        assert forall|i: int| 0 <= i < once.len() implies crate::text::is_ascii_lower(
            #[trigger] once[i],
        ) || crate::text::is_ascii_digit(once[i]) || once[i] == '_' by {
            assert(once[i] == out[i]);
        }
    }
    lemma_snake_case_keeps_snake(once);
}

/// Writing a text of letters, digits, spaces, hyphens and underscores in
/// snake_case twice gives what writing it once gives.
pub proof fn lemma_snake_case_idempotent_on_plain_text(s: Seq<char>)
    requires
        is_plain_text(s),
    ensures
        is_snake(snake_case(s)),
        snake_case(snake_case(s)) == snake_case(s),
{
    lemma_scan_begins_with_letter(s);
    let out = scan_of(s, true, LetterCase::Lower).out;
    if snake_case(s).len() > 0 {
        assert(snake_case(s)[0] == out[0]);
    }
    lemma_snake_case_idempotent(s);
}

} // verus!
