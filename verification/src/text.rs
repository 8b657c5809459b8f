//! Text as sequences of characters: the models that contracts speak of, and the exact
//! helpers that the rest of the library builds its strings with.

use vstd::prelude::*;
use vstd::string::*;
use vstd::utf8::*;

verus! {

// ── What the standard library supplies ────────────────────────────────────────

/// `String::push` adds one character at the end.
pub assume_specification[ std::string::String::push ](s: &mut std::string::String, c: char)
    ensures
        final(s)@ == old(s)@.push(c),
;

/// Whether a character has the Unicode `White_Space` property.
pub uninterp spec fn white_space_property(c: char) -> bool;

/// `char::is_whitespace` answers the Unicode `White_Space` property, a fixed fact about
/// each character. Within ASCII that property holds of the space, the tab, the line feed,
/// the vertical tab, the form feed and the carriage return.
pub assume_specification[ char::is_whitespace ](c: char) -> (r: bool)
    ensures
        r == white_space_property(c),
        (c as u32) < 128 ==> r == ascii_whitespace(c),
;

/// Whether a character is white space: within ASCII the six that are, beyond it by its
/// Unicode property.
pub open spec fn unicode_whitespace(c: char) -> bool {
    if (c as u32) < 128 {
        ascii_whitespace(c)
    } else {
        white_space_property(c)
    }
}

/// Whether a character is alphabetic or numeric by its Unicode properties.
pub uninterp spec fn alphanumeric_property(c: char) -> bool;

/// `char::is_alphanumeric` answers whether a character is alphabetic or numeric by its
/// Unicode properties. Within ASCII those are the letters and the digits.
pub assume_specification[ char::is_alphanumeric ](c: char) -> (r: bool)
    ensures
        r == alphanumeric_property(c),
        (c as u32) < 128 ==> r == ascii_alphanumeric(c),
;

/// Whether a character is alphabetic or numeric: within ASCII a letter or a digit, beyond it
/// by its Unicode properties.
pub open spec fn unicode_alphanumeric(c: char) -> bool {
    if (c as u32) < 128 {
        ascii_alphanumeric(c)
    } else {
        alphanumeric_property(c)
    }
}

/// A text in Unicode lower case.
pub uninterp spec fn lower_case_mapping(s: Seq<char>) -> Seq<char>;

/// `str::to_lowercase` maps a text to its Unicode lower case. A text of ASCII characters
/// alone keeps its length: each letter becomes the small letter, nothing else changes.
pub assume_specification[ str::to_lowercase ](s: &str) -> (r: std::string::String)
    ensures
        r@ == lower_case_mapping(s@),
        is_ascii_chars(s@) ==> r@ == ascii_lowercase(s@),
;

/// A text in lower case: of ASCII characters letter by letter, any other as Unicode maps it.
pub open spec fn unicode_lowercase(s: Seq<char>) -> Seq<char> {
    if is_ascii_chars(s) {
        ascii_lowercase(s)
    } else {
        lower_case_mapping(s)
    }
}

/// Bytes read as UTF-8, with a replacement character for what is not.
pub uninterp spec fn replaced_utf8(bytes: Seq<u8>) -> Seq<char>;

/// `String::from_utf8_lossy` reads bytes as UTF-8. Bytes that are UTF-8 read as the text
/// that they encode; where and how often replacement characters stand in others is left to
/// it.
#[verifier::external_body]
pub(crate) fn lossy_utf8(bytes: &[u8]) -> (r: String)
    ensures
        r@ == replaced_utf8(bytes@),
        valid_utf8(bytes@) ==> r@ == decode_utf8(bytes@),
{
    String::from_utf8_lossy(bytes).into_owned()
}

/// Bytes read as UTF-8: the text that they encode, or one with replacement characters where
/// they encode none.
pub open spec fn utf8_lossy(bytes: Seq<u8>) -> Seq<char> {
    if valid_utf8(bytes) {
        decode_utf8(bytes)
    } else {
        replaced_utf8(bytes)
    }
}

/// `String::from_utf8` reads bytes that are UTF-8 as the text that they encode, and refuses
/// any others.
#[verifier::external_body]
pub(crate) fn exact_utf8(bytes: Vec<u8>) -> (r: Option<String>)
    ensures
        opt_view(r) == (if valid_utf8(bytes@) {
            Some(decode_utf8(bytes@))
        } else {
            None
        }),
{
    String::from_utf8(bytes).ok()
}

/// Sixteen-bit units read as UTF-16, with a replacement character for what is not.
pub uninterp spec fn replaced_utf16(units: Seq<u16>) -> Seq<char>;

/// Whether no unit is a surrogate.
pub open spec fn no_surrogates(units: Seq<u16>) -> bool {
    forall|i: int|
        0 <= i < units.len() ==> (#[trigger] units[i]) < 0xd800 || 0xe000 <= units[i]
}

/// `String::from_utf16_lossy` reads units as UTF-16. Where no unit is a surrogate each is
/// its own character; what pairs of them read as, and what stands for a lone one, is left to
/// it, but each character stands for a unit of its own.
#[verifier::external_body]
pub(crate) fn lossy_utf16(units: &[u16]) -> (r: String)
    ensures
        r@ == replaced_utf16(units@),
        no_surrogates(units@) ==> r@ == units@.map_values(|u: u16| u as char),
        r@.len() <= units@.len(),
{
    String::from_utf16_lossy(units)
}

/// Sixteen-bit units read as UTF-16: where none is a surrogate each is its
/// own character, any others read as they pair up.
pub open spec fn utf16_lossy(units: Seq<u16>) -> Seq<char> {
    if no_surrogates(units) {
        units.map_values(|u: u16| u as char)
    } else {
        replaced_utf16(units)
    }
}

// ── Characters ────────────────────────────────────────────────────────────────

/// The six ASCII white-space characters.
pub open spec fn ascii_whitespace(c: char) -> bool {
    c == ' ' || ('\t' <= c && c <= '\r')
}

/// The ASCII letters and digits.
pub open spec fn ascii_alphanumeric(c: char) -> bool {
    ('0' <= c && c <= '9') || ('A' <= c && c <= 'Z') || ('a' <= c && c <= 'z')
}

/// The ASCII hexadecimal digits, in either case.
pub open spec fn ascii_hexdigit(c: char) -> bool {
    ('0' <= c && c <= '9') || ('A' <= c && c <= 'F') || ('a' <= c && c <= 'f')
}

/// The ASCII decimal digits.
pub open spec fn ascii_digit(c: char) -> bool {
    '0' <= c && c <= '9'
}

/// The ASCII letters.
pub open spec fn ascii_letter(c: char) -> bool {
    ('A' <= c && c <= 'Z') || ('a' <= c && c <= 'z')
}

/// The control characters of Unicode: the C0 range, delete, and the C1 range.
pub open spec fn control_char(c: char) -> bool {
    (c as u32) < 0x20 || (0x7f <= (c as u32) && (c as u32) <= 0x9f)
}

/// An ASCII capital as its small letter; any other character as it is.
pub open spec fn ascii_lower(c: char) -> char {
    if 'A' <= c && c <= 'Z' {
        ((c as u8) + 32) as u8 as char
    } else {
        c
    }
}

/// A text with its ASCII capitals as small letters.
pub open spec fn ascii_lowercase(s: Seq<char>) -> Seq<char> {
    s.map_values(|c: char| ascii_lower(c))
}

/// Two texts that differ at most in the case of ASCII letters.
pub open spec fn same_ignoring_ascii_case(a: Seq<char>, b: Seq<char>) -> bool {
    ascii_lowercase(a) == ascii_lowercase(b)
}

pub fn is_ascii_digit(c: char) -> (r: bool)
    ensures
        r == ascii_digit(c),
{
    '0' <= c && c <= '9'
}

pub fn is_ascii_letter(c: char) -> (r: bool)
    ensures
        r == ascii_letter(c),
{
    ('A' <= c && c <= 'Z') || ('a' <= c && c <= 'z')
}

pub fn is_ascii_alphanumeric(c: char) -> (r: bool)
    ensures
        r == ascii_alphanumeric(c),
{
    is_ascii_digit(c) || is_ascii_letter(c)
}

pub fn is_ascii_hexdigit(c: char) -> (r: bool)
    ensures
        r == ascii_hexdigit(c),
{
    is_ascii_digit(c) || ('A' <= c && c <= 'F') || ('a' <= c && c <= 'f')
}

pub fn is_control_char(c: char) -> (r: bool)
    ensures
        r == control_char(c),
{
    let code: u32 = c as u32;
    code < 0x20 || (0x7f <= code && code <= 0x9f)
}

pub fn lower_ascii_char(c: char) -> (r: char)
    ensures
        r == ascii_lower(c),
{
    if 'A' <= c && c <= 'Z' {
        let code: u8 = c as u8;
        (code + 32) as char
    } else {
        c
    }
}

// ── Between strings and character vectors ─────────────────────────────────────

/// The characters of a text.
pub fn chars_of(s: &str) -> (v: Vec<char>)
    ensures
        v@ == s@,
{
    let mut v: Vec<char> = Vec::new();
    for c in it: s.chars()
        invariant
            v@ == it.seq().take(it.index() as int),
            it.seq() == s@,
    {
        v.push(c);
        assert(it.seq().take(it.index() as int + 1) =~= it.seq().take(it.index() as int).push(c));
    }
    assert(s@.take(s@.len() as int) =~= s@);
    v
}

/// The text made of the characters from `from` up to `to`.
pub fn string_range(v: &Vec<char>, from: usize, to: usize) -> (s: String)
    requires
        from <= to <= v@.len(),
    ensures
        s@ == v@.subrange(from as int, to as int),
{
    let mut s = String::new();
    let mut i: usize = from;
    assert(s@ =~= v@.subrange(from as int, from as int));
    while i < to
        invariant
            from <= i <= to <= v@.len(),
            s@ == v@.subrange(from as int, i as int),
        decreases to - i,
    {
        s.push(v[i]);
        assert(v@.subrange(from as int, i + 1) =~= v@.subrange(from as int, i as int).push(v@[i as int]));
        i += 1;
    }
    s
}

/// Whether two texts are the same.
pub fn same(a: &str, b: &str) -> (r: bool)
    ensures
        r == (a@ == b@),
{
    let x = a.to_owned();
    let y = b.to_owned();
    x == y
}

/// Whether two texts are the same but for the case of ASCII letters.
pub fn eq_ignore_ascii_case(a: &str, b: &str) -> (r: bool)
    ensures
        r == same_ignoring_ascii_case(a@, b@),
{
    let x = to_ascii_lowercase(a);
    let y = to_ascii_lowercase(b);
    x == y
}

/// A text with its ASCII capitals as small letters.
pub fn to_ascii_lowercase(s: &str) -> (r: String)
    ensures
        r@ == ascii_lowercase(s@),
{
    let mut r = String::new();
    for c in it: s.chars()
        invariant
            r@ == ascii_lowercase(it.seq().take(it.index() as int)),
            it.seq() == s@,
    {
        r.push(lower_ascii_char(c));
        assert(ascii_lowercase(it.seq().take(it.index() as int + 1)) =~= ascii_lowercase(
            it.seq().take(it.index() as int),
        ).push(ascii_lower(c)));
    }
    assert(s@.take(s@.len() as int) =~= s@);
    r
}

// ── Trimming ──────────────────────────────────────────────────────────────────

/// A text without its leading white space.
pub open spec fn trim_start(s: Seq<char>) -> Seq<char>
    decreases s.len(),
{
    if s.len() > 0 && unicode_whitespace(s[0]) {
        trim_start(s.skip(1))
    } else {
        s
    }
}

/// A text without its trailing white space.
pub open spec fn trim_end(s: Seq<char>) -> Seq<char>
    decreases s.len(),
{
    if s.len() > 0 && unicode_whitespace(s.last()) {
        trim_end(s.drop_last())
    } else {
        s
    }
}

/// A text without the white space around it.
pub open spec fn trim(s: Seq<char>) -> Seq<char> {
    trim_end(trim_start(s))
}

/// The position at which the trimmed text starts.
pub fn first_non_white(v: &Vec<char>) -> (i: usize)
    ensures
        i <= v@.len(),
        v@.skip(i as int) == trim_start(v@),
{
    let mut i: usize = 0;
    assert(v@.skip(0) =~= v@);
    while i < v.len() && v[i].is_whitespace()
        invariant
            i <= v@.len(),
            trim_start(v@.skip(i as int)) == trim_start(v@),
        ensures
            i <= v@.len(),
            trim_start(v@.skip(i as int)) == trim_start(v@),
            i < v@.len() ==> !unicode_whitespace(v@[i as int]),
        decreases v@.len() - i,
    {
        assert(v@.skip(i as int).skip(1) =~= v@.skip(i + 1));
        i += 1;
    }
    i
}

/// The end of the text `v[from..]` without its trailing white space.
pub fn end_non_white(v: &Vec<char>, from: usize) -> (j: usize)
    requires
        from <= v@.len(),
    ensures
        from <= j <= v@.len(),
        v@.subrange(from as int, j as int) == trim_end(v@.skip(from as int)),
{
    let mut j: usize = v.len();
    assert(v@.subrange(from as int, j as int) =~= v@.skip(from as int));
    while j > from && v[j - 1].is_whitespace()
        invariant
            from <= j <= v@.len(),
            trim_end(v@.subrange(from as int, j as int)) == trim_end(v@.skip(from as int)),
        ensures
            from <= j <= v@.len(),
            trim_end(v@.subrange(from as int, j as int)) == trim_end(v@.skip(from as int)),
            j > from ==> !unicode_whitespace(v@[j - 1]),
        decreases j,
    {
        assert(v@.subrange(from as int, j as int).drop_last() =~= v@.subrange(from as int, j - 1));
        j -= 1;
    }
    j
}

/// A text without the white space around it.
pub fn trimmed(s: &str) -> (r: String)
    ensures
        r@ == trim(s@),
{
    let v = chars_of(s);
    let i: usize = first_non_white(&v);
    let j: usize = end_non_white(&v, i);
    string_range(&v, i, j)
}

/// A text without its leading white space.
pub fn trimmed_start(s: &str) -> (r: String)
    ensures
        r@ == trim_start(s@),
{
    let v = chars_of(s);
    let i: usize = first_non_white(&v);
    let r = string_range(&v, i, v.len());
    assert(v@.subrange(i as int, v@.len() as int) =~= v@.skip(i as int));
    r
}

// ── Splitting and joining ─────────────────────────────────────────────────────

/// The pieces of a text between the characters that satisfy `sep`: one more piece than
/// there are separators, empty pieces included.
pub open spec fn split_on(s: Seq<char>, sep: spec_fn(char) -> bool) -> Seq<Seq<char>>
    decreases s.len(),
{
    if s.len() == 0 {
        seq![Seq::<char>::empty()]
    } else {
        let before = split_on(s.drop_last(), sep);
        if sep(s.last()) {
            before.push(Seq::empty())
        } else {
            before.update(before.len() - 1, before.last().push(s.last()))
        }
    }
}

/// The views of a vector of strings.
pub open spec fn views(v: Seq<String>) -> Seq<Seq<char>> {
    v.map_values(|s: String| s@)
}

pub proof fn lemma_split_nonempty(s: Seq<char>, sep: spec_fn(char) -> bool)
    ensures
        split_on(s, sep).len() > 0,
    decreases s.len(),
{
    if s.len() > 0 {
        lemma_split_nonempty(s.drop_last(), sep);
    }
}

/// The pieces that hold at least one character.
pub open spec fn nonempty(pieces: Seq<Seq<char>>) -> Seq<Seq<char>>
    decreases pieces.len(),
{
    if pieces.len() == 0 {
        Seq::empty()
    } else {
        let before = nonempty(pieces.drop_last());
        if pieces.last().len() > 0 {
            before.push(pieces.last())
        } else {
            before
        }
    }
}

/// The words of a text: its maximal runs of characters that are not separators.
pub open spec fn words_by(s: Seq<char>, sep: spec_fn(char) -> bool) -> Seq<Seq<char>> {
    nonempty(split_on(s, sep))
}

/// The words of a text between white space.
pub open spec fn words(s: Seq<char>) -> Seq<Seq<char>> {
    words_by(s, |c: char| unicode_whitespace(c))
}

/// The parts one after the other, with `sep` between neighbours.
pub open spec fn join(parts: Seq<Seq<char>>, sep: Seq<char>) -> Seq<char>
    decreases parts.len(),
{
    if parts.len() == 0 {
        Seq::empty()
    } else if parts.len() == 1 {
        parts[0]
    } else {
        join(parts.drop_last(), sep) + sep + parts.last()
    }
}

/// A text with its words one space apart.
pub open spec fn single_spaced(s: Seq<char>) -> Seq<char> {
    join(words(s), seq![' '])
}

pub proof fn lemma_views_push(v: Seq<String>, s: String)
    ensures
        views(v.push(s)) == views(v).push(s@),
{
    assert(views(v.push(s)) =~= views(v).push(s@));
}

/// Add a text to a list.
pub fn push_text(list: &mut Vec<String>, text: &str)
    ensures
        views(final(list)@) == views(old(list)@).push(text@),
{
    let copy = text.to_owned();
    proof {
        lemma_views_push(list@, copy);
    }
    list.push(copy);
}

/// The pieces of a text between the characters that `is_sep` accepts.
pub(crate) fn split_by<F: Fn(char) -> bool>(s: &str, is_sep: F, Ghost(sep): Ghost<spec_fn(char) -> bool>) -> (r:
    Vec<String>)
    requires
        forall|c: char| #[trigger] is_sep.requires((c,)),
        forall|c: char, b: bool| #[trigger] is_sep.ensures((c,), b) ==> b == sep(c),
    ensures
        views(r@) == split_on(s@, sep),
{
    let mut done: Vec<String> = Vec::new();
    let mut piece = String::new();
    assert(views(done@).push(piece@) =~= split_on(Seq::<char>::empty(), sep));
    assert(s@.take(0) =~= Seq::<char>::empty());
    for c in it: s.chars()
        invariant
            forall|c: char| #[trigger] is_sep.requires((c,)),
            forall|c: char, b: bool| #[trigger] is_sep.ensures((c,), b) ==> b == sep(c),
            it.seq() == s@,
            views(done@).push(piece@) == split_on(it.seq().take(it.index() as int), sep),
    {
        let ghost so_far = it.seq().take(it.index() as int);
        let ghost next = it.seq().take(it.index() as int + 1);
        assert(next.drop_last() =~= so_far);
        assert(next.last() == c);
        let ghost before = views(done@).push(piece@);
        if is_sep(c) {
            proof {
                lemma_views_push(done@, piece);
            }
            done.push(piece);
            piece = String::new();
            assert(views(done@).push(piece@) =~= split_on(next, sep));
        } else {
            piece.push(c);
            assert(views(done@).push(piece@) =~= before.update(
                before.len() - 1,
                before.last().push(c),
            ));
        }
    }
    assert(s@.take(s@.len() as int) =~= s@);
    proof {
        lemma_views_push(done@, piece);
    }
    done.push(piece);
    done
}

/// The non-empty texts among the given ones, in order.
pub fn keep_nonempty(pieces: Vec<String>) -> (r: Vec<String>)
    ensures
        views(r@) == nonempty(views(pieces@)),
{
    let mut r: Vec<String> = Vec::new();
    let mut i: usize = 0;
    assert(views(pieces@).take(0) =~= Seq::<Seq<char>>::empty());
    assert(views(r@) =~= Seq::<Seq<char>>::empty());
    while i < pieces.len()
        invariant
            i <= pieces@.len(),
            views(r@) == nonempty(views(pieces@).take(i as int)),
        decreases pieces@.len() - i,
    {
        let ghost next = views(pieces@).take(i + 1);
        assert(next.drop_last() =~= views(pieces@).take(i as int));
        assert(next.last() == pieces@[i as int]@);
        if !pieces[i].as_str().is_empty() {
            let piece = pieces[i].clone();
            proof {
                lemma_views_push(r@, piece);
            }
            r.push(piece);
        }
        i += 1;
    }
    assert(views(pieces@).take(pieces@.len() as int) =~= views(pieces@));
    r
}

fn is_white(c: char) -> (r: bool)
    ensures
        r == unicode_whitespace(c),
{
    c.is_whitespace()
}

fn is_line_feed(c: char) -> (r: bool)
    ensures
        r == (c == '\n'),
{
    c == '\n'
}

/// The words of a text between white space.
pub fn split_whitespace(s: &str) -> (r: Vec<String>)
    ensures
        views(r@) == words(s@),
{
    let ghost sep = |c: char| unicode_whitespace(c);
    let pieces = split_by(
        s,
        is_white,
        Ghost(sep),
    );
    keep_nonempty(pieces)
}

/// The texts one after the other, with `sep` between neighbours.
pub fn joined(parts: &Vec<String>, sep: &str) -> (r: String)
    ensures
        r@ == join(views(parts@), sep@),
{
    let mut r = String::new();
    let mut i: usize = 0;
    assert(views(parts@).take(0) =~= Seq::<Seq<char>>::empty());
    while i < parts.len()
        invariant
            i <= parts@.len(),
            r@ == join(views(parts@).take(i as int), sep@),
        decreases parts@.len() - i,
    {
        let ghost next = views(parts@).take(i + 1);
        assert(next.drop_last() =~= views(parts@).take(i as int));
        assert(next.last() == parts@[i as int]@);
        if i > 0 {
            r.append(sep);
        }
        r.append(parts[i].as_str());
        assert(i == 0 ==> r@ =~= parts@[i as int]@);
        i += 1;
    }
    assert(views(parts@).take(parts@.len() as int) =~= views(parts@));
    r
}

/// How many characters some texts hold together.
pub open spec fn total_len(parts: Seq<Seq<char>>) -> nat
    decreases parts.len(),
{
    if parts.len() == 0 {
        0
    } else {
        total_len(parts.drop_last()) + parts.last().len()
    }
}

proof fn lemma_split_total(s: Seq<char>, sep: spec_fn(char) -> bool)
    ensures
        split_on(s, sep).len() > 0,
        total_len(split_on(s, sep)) + split_on(s, sep).len() == s.len() + 1,
    decreases s.len(),
{
    let pieces = split_on(s, sep);
    if s.len() == 0 {
        assert(pieces.drop_last() =~= Seq::<Seq<char>>::empty());
        assert(total_len(pieces.drop_last()) == 0);
    } else {
        lemma_split_total(s.drop_last(), sep);
        let before = split_on(s.drop_last(), sep);
        if sep(s.last()) {
            assert(pieces.drop_last() =~= before);
        } else {
            assert(pieces.drop_last() =~= before.drop_last());
        }
    }
}

proof fn lemma_nonempty_total(pieces: Seq<Seq<char>>)
    ensures
        nonempty(pieces).len() <= pieces.len(),
        total_len(nonempty(pieces)) == total_len(pieces),
    decreases pieces.len(),
{
    if pieces.len() > 0 {
        lemma_nonempty_total(pieces.drop_last());
        let before = nonempty(pieces.drop_last());
        if pieces.last().len() > 0 {
            assert(nonempty(pieces).drop_last() =~= before);
        }
    }
}

proof fn lemma_join_total(parts: Seq<Seq<char>>, sep: Seq<char>)
    requires
        sep.len() == 1,
    ensures
        parts.len() > 0 ==> join(parts, sep).len() + 1 == total_len(parts) + parts.len(),
    decreases parts.len(),
{
    if parts.len() == 1 {
        assert(parts.drop_last() =~= Seq::<Seq<char>>::empty());
        assert(total_len(parts.drop_last()) == 0);
    } else if parts.len() > 1 {
        lemma_join_total(parts.drop_last(), sep);
    }
}

/// Putting the words of a text one space apart makes it no longer.
pub proof fn single_spacing_makes_no_longer(s: Seq<char>)
    ensures
        single_spaced(s).len() <= s.len(),
{
    let sep = |c: char| unicode_whitespace(c);
    lemma_split_total(s, sep);
    lemma_nonempty_total(split_on(s, sep));
    lemma_join_total(words(s), seq![' ']);
}

/// A text with its words one space apart.
pub fn with_single_spaces(s: &str) -> (r: String)
    ensures
        r@ == single_spaced(s@),
{
    let parts = split_whitespace(s);
    proof {
        reveal_strlit(" ");
        assert(" "@ =~= seq![' ']);
    }
    joined(&parts, " ")
}

/// A line without the carriage return that ends it, if one does.
pub open spec fn without_cr(line: Seq<char>) -> Seq<char> {
    if line.len() > 0 && line.last() == '\r' {
        line.drop_last()
    } else {
        line
    }
}

/// The lines of a text. A line ends at a line feed, or at a carriage return and a line
/// feed; the last line needs no end and counts only where it holds something.
pub open spec fn lines(s: Seq<char>) -> Seq<Seq<char>> {
    let pieces = split_on(s, |c: char| c == '\n');
    let ended = pieces.drop_last().map_values(|l: Seq<char>| without_cr(l));
    if pieces.last().len() > 0 {
        ended.push(pieces.last())
    } else {
        ended
    }
}

/// The lines of a text.
pub fn lines_of(s: &str) -> (r: Vec<String>)
    ensures
        views(r@) == lines(s@),
{
    let ghost sep = |c: char| c == '\n';
    let mut pieces = split_by(
        s,
        is_line_feed,
        Ghost(sep),
    );
    let ghost all = split_on(s@, sep);
    proof {
        lemma_split_nonempty(s@, sep);
        assert(views(pieces@).len() == pieces@.len());
    }
    let last = pieces.pop();
    let ghost ended = all.drop_last();
    assert(views(pieces@) =~= ended);
    let mut r: Vec<String> = Vec::new();
    let mut i: usize = 0;
    let ghost strip = |l: Seq<char>| without_cr(l);
    assert(views(r@) =~= ended.map_values(strip).take(0));
    while i < pieces.len()
        invariant
            i <= pieces@.len(),
            views(pieces@) == ended,
            strip == (|l: Seq<char>| without_cr(l)),
            views(r@) == ended.map_values(strip).take(i as int),
        decreases pieces@.len() - i,
    {
        let v = chars_of(pieces[i].as_str());
        assert(v@ == ended[i as int]);
        let mut end: usize = v.len();
        if end > 0 && v[end - 1] == '\r' {
            end -= 1;
        }
        let line = string_range(&v, 0, end);
        assert(line@ =~= without_cr(v@));
        proof {
            lemma_views_push(r@, line);
        }
        r.push(line);
        assert(views(r@) =~= ended.map_values(strip).take(i + 1));
        i += 1;
    }
    assert(ended.map_values(strip).take(ended.len() as int) =~= ended.map_values(strip));
    match last {
        Some(line) => {
            assert(line@ == all.last());
            if !line.as_str().is_empty() {
                proof {
                    lemma_views_push(r@, line);
                }
                r.push(line);
            }
        },
        None => {},
    }
    r
}

// ── Searching ─────────────────────────────────────────────────────────────────

/// Whether `needle` stands in `s` at position `i`.
pub open spec fn occurs_at(s: Seq<char>, needle: Seq<char>, i: int) -> bool {
    0 <= i && i + needle.len() <= s.len() && s.subrange(i, i + needle.len()) == needle
}

/// Whether `needle` stands somewhere in `s`.
pub open spec fn contains(s: Seq<char>, needle: Seq<char>) -> bool {
    exists|i: int| occurs_at(s, needle, i)
}

/// Whether `needle` stands in `v` at position `i`.
pub fn matches_at(v: &Vec<char>, needle: &Vec<char>, i: usize) -> (r: bool)
    requires
        i <= v@.len(),
    ensures
        r == occurs_at(v@, needle@, i as int),
{
    let len: usize = v.len();
    if needle.len() > len - i {
        return false;
    }
    let mut k: usize = 0;
    while k < needle.len()
        invariant
            k <= needle@.len(),
            len == v@.len(),
            i + needle@.len() <= v@.len(),
            forall|m: int| 0 <= m < k ==> v@[i + m] == needle@[m],
        decreases needle@.len() - k,
    {
        if v[i + k] != needle[k] {
            assert(v@.subrange(i as int, i + needle@.len())[k as int] != needle@[k as int]);
            return false;
        }
        k += 1;
    }
    assert(v@.subrange(i as int, i + needle@.len()) =~= needle@);
    true
}

/// The first position at which `needle` stands in `v`.
pub fn find_chars(v: &Vec<char>, needle: &Vec<char>) -> (r: Option<usize>)
    ensures
        match r {
            Some(i) => occurs_at(v@, needle@, i as int) && forall|k: int|
                0 <= k < i ==> !#[trigger] occurs_at(v@, needle@, k),
            None => !contains(v@, needle@),
        },
{
    let mut i: usize = 0;
    while i <= v.len()
        invariant
            i <= v@.len() + 1,
            forall|k: int| 0 <= k < i ==> !#[trigger] occurs_at(v@, needle@, k),
        decreases v@.len() + 1 - i,
    {
        if matches_at(v, needle, i) {
            return Some(i);
        }
        if i == v.len() {
            return None;
        }
        i += 1;
    }
    None
}

/// Whether `needle` stands somewhere in the text.
pub fn contains_text(s: &str, needle: &str) -> (r: bool)
    ensures
        r == contains(s@, needle@),
{
    let v = chars_of(s);
    let n = chars_of(needle);
    match find_chars(&v, &n) {
        Some(i) => {
            assert(occurs_at(s@, needle@, i as int));
            true
        },
        None => false,
    }
}

/// Whether the text starts with `prefix`.
pub fn has_prefix(s: &str, prefix: &str) -> (r: bool)
    ensures
        r == prefix@.is_prefix_of(s@),
{
    let v = chars_of(s);
    let p = chars_of(prefix);
    let r = matches_at(&v, &p, 0);
    assert(r == prefix@.is_prefix_of(s@));
    r
}

/// What follows `prefix` in a text that starts with it.
pub open spec fn after_prefix(s: Seq<char>, prefix: Seq<char>) -> Option<Seq<char>> {
    if prefix.is_prefix_of(s) {
        Some(s.skip(prefix.len() as int))
    } else {
        None
    }
}

/// The view of an optional text.
pub open spec fn opt_view(o: Option<String>) -> Option<Seq<char>> {
    match o {
        Some(s) => Some(s@),
        None => None,
    }
}

/// What follows `prefix` in a text that starts with it.
pub fn strip_text_prefix(s: &str, prefix: &str) -> (r: Option<String>)
    ensures
        opt_view(r) == after_prefix(s@, prefix@),
{
    let v = chars_of(s);
    let p = chars_of(prefix);
    if matches_at(&v, &p, 0) {
        let rest = string_range(&v, p.len(), v.len());
        assert(rest@ =~= s@.skip(prefix@.len() as int));
        assert(prefix@.is_prefix_of(s@));
        Some(rest)
    } else {
        assert(!prefix@.is_prefix_of(s@));
        None
    }
}

/// Whether a text is one of the listed texts.
pub open spec fn listed(list: Seq<String>, s: Seq<char>) -> bool {
    exists|i: int| 0 <= i < list.len() && (#[trigger] list[i])@ == s
}

/// Whether a text is one of the listed texts.
pub fn is_listed(list: &Vec<String>, s: &str) -> (r: bool)
    ensures
        r == listed(list@, s@),
{
    let mut i: usize = 0;
    while i < list.len()
        invariant
            i <= list@.len(),
            forall|k: int| 0 <= k < i ==> (#[trigger] list@[k])@ != s@,
        decreases list@.len() - i,
    {
        if same(list[i].as_str(), s) {
            return true;
        }
        i += 1;
    }
    false
}

/// A copy of a list of texts.
pub fn copy_list(list: &Vec<String>) -> (r: Vec<String>)
    ensures
        r@ == list@,
{
    let mut r: Vec<String> = Vec::new();
    let mut i: usize = 0;
    while i < list.len()
        invariant
            i <= list@.len(),
            r@ == list@.take(i as int),
        decreases list@.len() - i,
    {
        r.push(list[i].clone());
        assert(list@.take(i + 1) =~= list@.take(i as int).push(list@[i as int]));
        i += 1;
    }
    assert(list@.take(list@.len() as int) =~= list@);
    r
}

// ── Lengths and caps ──────────────────────────────────────────────────────────

/// The first `max` characters of a text, or all of it where it is shorter.
pub open spec fn head(s: Seq<char>, max: int) -> Seq<char> {
    if s.len() <= max {
        s
    } else {
        s.take(max)
    }
}

/// The first `max` characters of a text.
pub fn char_cap(s: &str, max_chars: usize) -> (r: String)
    ensures
        r@ == head(s@, max_chars as int),
{
    let v = chars_of(s);
    let end: usize = if v.len() <= max_chars {
        v.len()
    } else {
        max_chars
    };
    let r = string_range(&v, 0, end);
    assert(r@ =~= head(s@, max_chars as int));
    r
}

/// A text of at most `max` characters: one that is longer is cut one short of that and
/// ended by an ellipsis.
pub open spec fn ellipsized(s: Seq<char>, max: int) -> Seq<char> {
    if s.len() <= max {
        s
    } else {
        s.take(max - 1).push('…')
    }
}

/// A text of at most `max` characters, an ellipsis standing for what was cut.
pub fn ellipsize(s: &str, max: usize) -> (r: String)
    requires
        max > 0,
    ensures
        r@ == ellipsized(s@, max as int),
        r@.len() <= max,
{
    let v = chars_of(s);
    if v.len() <= max {
        return s.to_owned();
    }
    let mut r = string_range(&v, 0, max - 1);
    assert(r@ =~= s@.take(max - 1));
    r.push('…');
    r
}

// ── Numbers ───────────────────────────────────────────────────────────────────

/// The character of a digit.
pub open spec fn digit_char(d: int) -> char {
    (('0' as u8) + d) as u8 as char
}

/// The value of a digit character.
pub open spec fn digit_value(c: char) -> int {
    (c as u8) - ('0' as u8)
}

/// A number in decimal, without leading zeros.
pub open spec fn decimal(n: nat) -> Seq<char>
    decreases n,
{
    if n < 10 {
        seq![digit_char(n as int)]
    } else {
        decimal(n / 10).push(digit_char((n % 10) as int))
    }
}

/// A whole number in decimal, with a minus sign where it is negative.
pub open spec fn decimal_int(n: int) -> Seq<char> {
    if n < 0 {
        seq!['-'] + decimal((-n) as nat)
    } else {
        decimal(n as nat)
    }
}

/// The value of a run of digits.
pub open spec fn digits_value(s: Seq<char>) -> nat
    decreases s.len(),
{
    if s.len() == 0 {
        0
    } else {
        (digits_value(s.drop_last()) * 10 + digit_value(s.last())) as nat
    }
}

/// Whether a text is one or more ASCII digits.
pub open spec fn is_number(s: Seq<char>) -> bool {
    s.len() > 0 && forall|i: int| 0 <= i < s.len() ==> ascii_digit(#[trigger] s[i])
}

/// What is left of a text once a leading `+` is taken off.
pub open spec fn without_plus(s: Seq<char>) -> Seq<char> {
    if s.len() > 0 && s[0] == '+' {
        s.skip(1)
    } else {
        s
    }
}

/// The number, at most `max`, that a text writes in decimal: an optional `+`, then digits
/// alone.
pub open spec fn parsed_nat(s: Seq<char>, max: int) -> Option<nat> {
    let body = without_plus(s);
    if is_number(body) && digits_value(body) <= max {
        Some(digits_value(body))
    } else {
        None
    }
}

/// The whole number from `min` to `max` that a text writes in decimal: an optional sign,
/// then digits alone.
pub open spec fn parsed_int(s: Seq<char>, min: int, max: int) -> Option<int> {
    if s.len() > 0 && s[0] == '-' {
        let body = s.skip(1);
        if is_number(body) && -digits_value(body) >= min {
            Some(-digits_value(body))
        } else {
            None
        }
    } else {
        match parsed_nat(s, max) {
            Some(n) => Some(n as int),
            None => None,
        }
    }
}

/// The value of a run of digits never falls as the run grows.
pub proof fn lemma_digits_grow(s: Seq<char>, k: int)
    requires
        0 <= k <= s.len(),
        forall|i: int| 0 <= i < s.len() ==> ascii_digit(#[trigger] s[i]),
    ensures
        digits_value(s.take(k)) <= digits_value(s),
    decreases s.len(),
{
    if k < s.len() {
        assert forall|i: int| 0 <= i < s.drop_last().len() implies ascii_digit(
            #[trigger] s.drop_last()[i],
        ) by {
            assert(s.drop_last()[i] == s[i]);
        }
        lemma_digits_grow(s.drop_last(), k);
        assert(s.drop_last().take(k) =~= s.take(k));
        assert(ascii_digit(s.last()));
    } else {
        assert(s.take(k) =~= s);
    }
}

/// The value that `v[from..]` writes in digits alone, where it is at most `max`.
fn parse_digits(v: &Vec<char>, from: usize, max: u64) -> (r: Option<u64>)
    requires
        from <= v@.len(),
    ensures
        r == (if is_number(v@.skip(from as int)) && digits_value(v@.skip(from as int)) <= max {
            Some(digits_value(v@.skip(from as int)) as u64)
        } else {
            None::<u64>
        }),
{
    let ghost body = v@.skip(from as int);
    if from == v.len() {
        return None;
    }
    let mut value: u64 = 0;
    let mut i: usize = from;
    while i < v.len()
        invariant
            from <= i <= v@.len(),
            body == v@.skip(from as int),
            forall|k: int| 0 <= k < i - from ==> ascii_digit(#[trigger] body[k]),
            value == digits_value(body.take(i - from)),
            value <= max,
        decreases v@.len() - i,
    {
        let c: char = v[i];
        assert(body[i - from] == c);
        if !is_ascii_digit(c) {
            assert(!is_number(body));
            return None;
        }
        let d: u64 = (c as u8 - '0' as u8) as u64;
        assert(body.take(i + 1 - from).drop_last() =~= body.take(i - from));
        assert(body.take(i + 1 - from).last() == c);
        assert(digits_value(body.take(i + 1 - from)) == value * 10 + d);
        if d > max || value > max / 10 || value * 10 > max - d {
            proof {
                if is_number(body) {
                    lemma_digits_grow(body, i + 1 - from);
                }
            }
            return None;
        }
        value = value * 10 + d;
        i += 1;
    }
    assert(body.take(body.len() as int) =~= body);
    Some(value)
}

/// The number, at most `max`, that a text writes in decimal.
pub fn parse_nat(s: &str, max: u64) -> (r: Option<u64>)
    ensures
        r == (match parsed_nat(s@, max as int) {
            Some(n) => Some(n as u64),
            None => None::<u64>,
        }),
{
    let v = chars_of(s);
    let from: usize = if v.len() > 0 && v[0] == '+' {
        1
    } else {
        0
    };
    assert(v@.skip(0) =~= v@);
    parse_digits(&v, from, max)
}

/// The `i64` that a text writes in decimal.
pub fn parse_i64(s: &str) -> (r: Option<i64>)
    ensures
        r == (match parsed_int(s@, i64::MIN as int, i64::MAX as int) {
            Some(n) => Some(n as i64),
            None => None::<i64>,
        }),
{
    let v = chars_of(s);
    if v.len() > 0 && v[0] == '-' {
        match parse_digits(&v, 1, 0x8000_0000_0000_0000) {
            Some(n) => {
                if n == 0x8000_0000_0000_0000 {
                    Some(i64::MIN)
                } else {
                    Some(-(n as i64))
                }
            },
            None => None,
        }
    } else {
        match parse_nat(s, i64::MAX as u64) {
            Some(n) => Some(n as i64),
            None => None,
        }
    }
}

fn digit_of(d: u64) -> (c: char)
    requires
        d < 10,
    ensures
        c == digit_char(d as int),
{
    ('0' as u8 + d as u8) as char
}

/// A number in decimal.
pub fn decimal_text(n: u64) -> (r: String)
    ensures
        r@ == decimal(n as nat),
    decreases n,
{
    if n < 10 {
        let mut r = String::new();
        r.push(digit_of(n));
        assert(r@ =~= seq![digit_char(n as int)]);
        r
    } else {
        let mut r = decimal_text(n / 10);
        r.push(digit_of(n % 10));
        r
    }
}

/// A whole number in decimal.
pub fn decimal_int_text(n: i64) -> (r: String)
    ensures
        r@ == decimal_int(n as int),
{
    if n < 0 {
        let magnitude: u64 = if n == i64::MIN {
            0x8000_0000_0000_0000
        } else {
            (-n) as u64
        };
        let digits = decimal_text(magnitude);
        let mut r = String::new();
        r.push('-');
        r.append(digits.as_str());
        assert(r@ =~= seq!['-'] + decimal(magnitude as nat));
        r
    } else {
        decimal_text(n as u64)
    }
}

// ── Order ─────────────────────────────────────────────────────────────────────

/// Whether a text comes before another or is the same: by the first character in which they
/// differ, a text before its continuations.
pub open spec fn text_le(a: Seq<char>, b: Seq<char>) -> bool
    decreases a.len(),
{
    if a.len() == 0 {
        true
    } else if b.len() == 0 {
        false
    } else if a[0] != b[0] {
        a[0] < b[0]
    } else {
        text_le(a.skip(1), b.skip(1))
    }
}

/// Whether each text comes before the next or is the same.
pub open spec fn in_order(s: Seq<Seq<char>>) -> bool {
    forall|i: int, j: int| 0 <= i < j < s.len() ==> #[trigger] text_le(s[i], s[j])
}

/// A text put into its place among ordered ones: before the first that it comes before or
/// is the same as.
pub open spec fn put_in_order(s: Seq<Seq<char>>, x: Seq<char>) -> Seq<Seq<char>>
    decreases s.len(),
{
    if s.len() == 0 {
        seq![x]
    } else if text_le(s.last(), x) {
        s.push(x)
    } else {
        put_in_order(s.drop_last(), x).push(s.last())
    }
}

/// The texts in order.
pub open spec fn ordered(s: Seq<Seq<char>>) -> Seq<Seq<char>>
    decreases s.len(),
{
    if s.len() == 0 {
        Seq::empty()
    } else {
        put_in_order(ordered(s.drop_last()), s.last())
    }
}

pub proof fn lemma_text_le_total(a: Seq<char>, b: Seq<char>)
    ensures
        text_le(a, b) || text_le(b, a),
        text_le(a, b) && text_le(b, a) ==> a == b,
        text_le(a, a),
    decreases a.len(),
{
    if a.len() > 0 {
        lemma_text_le_total(a.skip(1), a.skip(1));
    }
    if a.len() > 0 && b.len() > 0 && a[0] == b[0] {
        lemma_text_le_total(a.skip(1), b.skip(1));
        if a.skip(1) == b.skip(1) {
            assert(a =~= seq![a[0]] + a.skip(1));
            assert(b =~= seq![b[0]] + b.skip(1));
        }
    }
    if a.len() == 0 && b.len() == 0 {
        assert(a =~= b);
    }
}

pub proof fn lemma_text_le_transitive(a: Seq<char>, b: Seq<char>, c: Seq<char>)
    requires
        text_le(a, b),
        text_le(b, c),
    ensures
        text_le(a, c),
    decreases a.len(),
{
    if a.len() > 0 && b.len() > 0 && c.len() > 0 && a[0] == b[0] && b[0] == c[0] {
        lemma_text_le_transitive(a.skip(1), b.skip(1), c.skip(1));
    }
}

proof fn lemma_put_in_order(s: Seq<Seq<char>>, x: Seq<char>)
    requires
        in_order(s),
    ensures
        in_order(put_in_order(s, x)),
        put_in_order(s, x).to_multiset() == s.to_multiset().insert(x),
        put_in_order(s, x).len() == s.len() + 1,
    decreases s.len(),
{
    broadcast use vstd::seq_lib::group_to_multiset_ensures;

    let t = put_in_order(s, x);
    if s.len() == 0 {
        assert(t =~= s.push(x));
    } else if text_le(s.last(), x) {
        assert forall|i: int, j: int| 0 <= i < j < t.len() implies #[trigger] text_le(t[i], t[j]) by {
            if j < s.len() {
                assert(text_le(s[i], s[j]));
            } else if i < s.len() - 1 {
                assert(text_le(s[i], s[s.len() - 1]));
                lemma_text_le_transitive(s[i], s.last(), x);
            }
        }
    } else {
        let before = s.drop_last();
        assert forall|i: int, j: int| 0 <= i < j < before.len() implies #[trigger] text_le(
            before[i],
            before[j],
        ) by {
            assert(text_le(s[i], s[j]));
        }
        lemma_put_in_order(before, x);
        let u = put_in_order(before, x);
        lemma_text_le_total(s.last(), x);
        assert forall|i: int| 0 <= i < u.len() implies #[trigger] text_le(u[i], s.last()) by {
            assert(u.to_multiset().count(u[i]) > 0) by {
                assert(u.contains(u[i]));
                u.to_multiset_ensures();
            }
            if u[i] != x {
                assert(before.to_multiset().count(u[i]) > 0);
                before.to_multiset_ensures();
                assert(before.contains(u[i]));
                let k = choose|k: int| 0 <= k < before.len() && before[k] == u[i];
                assert(text_le(s[k], s[s.len() - 1]));
            }
        }
        assert forall|i: int, j: int| 0 <= i < j < t.len() implies #[trigger] text_le(t[i], t[j]) by {
            if j < u.len() {
                assert(text_le(u[i], u[j]));
            } else {
                assert(text_le(u[i], s.last()));
            }
        }
        assert(before.push(s.last()) =~= s);
        assert(t.to_multiset() =~= s.to_multiset().insert(x));
    }
}

/// Putting texts in order gives the same texts, in order.
pub proof fn ordered_is_the_same_texts_in_order(s: Seq<Seq<char>>)
    ensures
        in_order(ordered(s)),
        ordered(s).to_multiset() == s.to_multiset(),
        ordered(s).len() == s.len(),
    decreases s.len(),
{
    broadcast use vstd::seq_lib::group_to_multiset_ensures;

    if s.len() == 0 {
        assert(ordered(s) =~= s);
    } else {
        ordered_is_the_same_texts_in_order(s.drop_last());
        lemma_put_in_order(ordered(s.drop_last()), s.last());
        assert(s.drop_last().push(s.last()) =~= s);
    }
}

/// The order that texts come in does not matter once they are put in order.
pub proof fn order_of_arrival_does_not_matter(a: Seq<Seq<char>>, b: Seq<Seq<char>>)
    requires
        a.to_multiset() == b.to_multiset(),
    ensures
        ordered(a) == ordered(b),
{
    ordered_is_the_same_texts_in_order(a);
    ordered_is_the_same_texts_in_order(b);
    let leq = |x: Seq<char>, y: Seq<char>| text_le(x, y);
    let x = ordered(a);
    let y = ordered(b);
    assert forall|i: int, j: int| 0 <= i < j < x.len() implies (#[trigger] leq(x[i], x[j])) by {
        assert(text_le(x[i], x[j]));
    }
    assert forall|i: int, j: int| 0 <= i < j < y.len() implies (#[trigger] leq(y[i], y[j])) by {
        assert(text_le(y[i], y[j]));
    }
    assert(vstd::relations::total_ordering(leq)) by {
        assert forall|x: Seq<char>| #[trigger] leq(x, x) by {
            lemma_text_le_total(x, x);
        }
        assert forall|x: Seq<char>, y: Seq<char>| #[trigger] leq(x, y) && #[trigger] leq(y, x) implies x
            == y by {
            lemma_text_le_total(x, y);
        }
        assert forall|x: Seq<char>, y: Seq<char>, z: Seq<char>| #[trigger]
            leq(x, y) && #[trigger] leq(y, z) implies leq(x, z) by {
            lemma_text_le_transitive(x, y, z);
        }
        assert forall|x: Seq<char>, y: Seq<char>| #[trigger] leq(x, y) || #[trigger] leq(y, x) by {
            lemma_text_le_total(x, y);
        }
    }
    vstd::seq_lib::lemma_sorted_unique(x, y, leq);
}

/// Whether a text comes before another or is the same.
pub fn comes_first(a: &str, b: &str) -> (r: bool)
    ensures
        r == text_le(a@, b@),
{
    let x = chars_of(a);
    let y = chars_of(b);
    let mut i: usize = 0;
    assert(a@.skip(0) =~= a@ && b@.skip(0) =~= b@);
    while i < x.len() && i < y.len()
        invariant
            i <= x@.len(),
            i <= y@.len(),
            x@ == a@,
            y@ == b@,
            text_le(a@, b@) == text_le(a@.skip(i as int), b@.skip(i as int)),
        decreases x@.len() - i,
    {
        assert(a@.skip(i as int)[0] == x@[i as int] && b@.skip(i as int)[0] == y@[i as int]);
        if x[i] != y[i] {
            return x[i] < y[i];
        }
        assert(a@.skip(i as int).skip(1) =~= a@.skip(i + 1));
        assert(b@.skip(i as int).skip(1) =~= b@.skip(i + 1));
        i += 1;
    }
    i == x.len()
}

fn insert_ordered(v: &mut Vec<String>, x: String)
    ensures
        views(final(v)@) == put_in_order(views(old(v)@), x@),
{
    let ghost all = views(v@);
    let ghost text = x@;
    let mut i: usize = v.len();
    assert(all.take(all.len() as int) =~= all);
    assert(all.skip(all.len() as int) =~= Seq::<Seq<char>>::empty());
    assert(put_in_order(all, text) =~= put_in_order(all.take(i as int), text) + all.skip(i as int));
    while i > 0 && !comes_first(v[i - 1].as_str(), x.as_str())
        invariant
            i <= v@.len(),
            all == views(v@),
            text == x@,
            put_in_order(all, text) == put_in_order(all.take(i as int), text) + all.skip(i as int),
        ensures
            i <= v@.len(),
            all == views(v@),
            put_in_order(all, text) == put_in_order(all.take(i as int), text) + all.skip(i as int),
            i > 0 ==> text_le(all[i - 1], text),
        decreases i,
    {
        let ghost up = all.take(i as int);
        assert(up.drop_last() =~= all.take(i - 1));
        assert(up.last() == v@[i - 1]@);
        assert(put_in_order(up, text) == put_in_order(all.take(i - 1), text).push(up.last()));
        assert(put_in_order(all.take(i - 1), text).push(up.last()) + all.skip(i as int)
            =~= put_in_order(all.take(i - 1), text) + all.skip(i - 1));
        i -= 1;
    }
    let ghost up = all.take(i as int);
    assert(put_in_order(up, text) =~= up.push(text));
    let ghost was = v@;
    v.insert(i, x);
    assert(views(v@) =~= up.push(text) + all.skip(i as int));
}

/// The texts in order.
pub fn sort_texts(v: Vec<String>) -> (r: Vec<String>)
    ensures
        views(r@) == ordered(views(v@)),
{
    let ghost all = views(v@);
    let mut out: Vec<String> = Vec::new();
    assert(all.take(0) =~= Seq::<Seq<char>>::empty());
    assert(views(out@) =~= Seq::<Seq<char>>::empty());
    let mut i: usize = 0;
    while i < v.len()
        invariant
            i <= v@.len(),
            all == views(v@),
            views(out@) == ordered(all.take(i as int)),
        decreases v@.len() - i,
    {
        assert(all.take(i + 1).drop_last() =~= all.take(i as int));
        assert(all.take(i + 1).last() == v@[i as int]@);
        insert_ordered(&mut out, v[i].clone());
        i += 1;
    }
    assert(all.take(all.len() as int) =~= all);
    out
}

// ── What these models mean ────────────────────────────────────────────────────

proof fn lemma_trim_start_is(s: Seq<char>) -> (i: int)
    ensures
        0 <= i <= s.len(),
        trim_start(s) == s.skip(i),
        forall|k: int| 0 <= k < i ==> unicode_whitespace(#[trigger] s[k]),
        i < s.len() ==> !unicode_whitespace(s[i]),
    decreases s.len(),
{
    if s.len() > 0 && unicode_whitespace(s[0]) {
        let rest = s.skip(1);
        let i = lemma_trim_start_is(rest);
        assert forall|k: int| 0 <= k < i + 1 implies unicode_whitespace(#[trigger] s[k]) by {
            if k > 0 {
                assert(rest[k - 1] == s[k]);
            }
        }
        assert(rest.skip(i) =~= s.skip(i + 1));
        i + 1
    } else {
        assert(s.skip(0) =~= s);
        0
    }
}

proof fn lemma_trim_end_is(s: Seq<char>) -> (j: int)
    ensures
        0 <= j <= s.len(),
        trim_end(s) == s.take(j),
        forall|k: int| j <= k < s.len() ==> unicode_whitespace(#[trigger] s[k]),
        j > 0 ==> !unicode_whitespace(s[j - 1]),
    decreases s.len(),
{
    if s.len() > 0 && unicode_whitespace(s.last()) {
        let rest = s.drop_last();
        let j = lemma_trim_end_is(rest);
        assert(rest.take(j) =~= s.take(j));
        assert forall|k: int| j <= k < s.len() implies unicode_whitespace(#[trigger] s[k]) by {
            if k < rest.len() {
                assert(rest[k] == s[k]);
            }
        }
        j
    } else {
        assert(s.take(s.len() as int) =~= s);
        s.len() as int
    }
}

/// A trimmed text is what lies between the white space at its two ends, and trimming it again
/// changes nothing.
pub proof fn trimmed_text_lies_between_white_space(s: Seq<char>) -> (r: (int, int))
    ensures
        0 <= r.0 <= r.1 <= s.len(),
        trim(s) == s.subrange(r.0, r.1),
        forall|k: int| 0 <= k < r.0 || r.1 <= k < s.len() ==> unicode_whitespace(#[trigger] s[k]),
        r.0 < r.1 ==> !unicode_whitespace(s[r.0]) && !unicode_whitespace(s[r.1 - 1]),
        trim(trim(s)) == trim(s),
{
    let i = lemma_trim_start_is(s);
    let rest = s.skip(i);
    let j = lemma_trim_end_is(rest);
    assert(rest.take(j) =~= s.subrange(i, i + j));
    assert forall|k: int| 0 <= k < i || i + j <= k < s.len() implies unicode_whitespace(
        #[trigger] s[k],
    ) by {
        if k >= i {
            assert(rest[k - i] == s[k]);
        }
    }
    if j > 0 {
        assert(rest[j - 1] == s[i + j - 1]);
        assert(rest[0] == s[i]);
        assert(!unicode_whitespace(s[i])) by {
            assert(i < s.len());
        }
    }
    let t = trim(s);
    let a = lemma_trim_start_is(t);
    if a > 0 {
        assert(unicode_whitespace(t[0]));
        assert(t[0] == s[i]);
    }
    assert(t.skip(0) =~= t);
    let b = lemma_trim_end_is(t);
    if b < t.len() {
        assert(unicode_whitespace(t[t.len() - 1]));
        assert(t[t.len() - 1] == s[i + j - 1]);
    }
    assert(t.take(t.len() as int) =~= t);
    (i, i + j)
}

/// The pieces of a text hold no separator, there is one more of them than there are
/// separators, and with the separator between them they are the text again.
pub proof fn pieces_make_up_the_text(s: Seq<char>, c: char)
    ensures
        join(split_on(s, |x: char| x == c), seq![c]) == s,
        split_on(s, |x: char| x == c).len() == s.filter(|x: char| x == c).len() + 1,
        ({
            let pieces = split_on(s, |x: char| x == c);
            forall|i: int, k: int|
                #![trigger pieces[i][k]]
                0 <= i < pieces.len() && 0 <= k < pieces[i].len() ==> pieces[i][k] != c
        }),
    decreases s.len(),
{
    reveal(Seq::filter);
    let sep = |x: char| x == c;
    let all = split_on(s, sep);
    if s.len() == 0 {
        assert(all[0] =~= s);
    } else {
        let rest = s.drop_last();
        pieces_make_up_the_text(rest, c);
        let before = split_on(rest, sep);
        lemma_split_nonempty(rest, sep);
        assert(rest.push(s.last()) =~= s);
        if s.last() == c {
            assert(all.drop_last() =~= before);
            assert(join(all, seq![c]) =~= join(before, seq![c]) + seq![c] + Seq::<char>::empty());
            assert(join(all, seq![c]) =~= rest.push(c));
        } else {
            let n = before.len() - 1;
            if n == 0 {
                assert(join(before, seq![c]) =~= before[0]);
                assert(join(all, seq![c]) =~= before[0].push(s.last()));
            } else {
                assert(all.drop_last() =~= before.drop_last());
                assert(join(all, seq![c]) =~= join(before, seq![c]).push(s.last()));
            }
            assert forall|i: int, k: int|
                #![trigger all[i][k]]
                0 <= i < all.len() && 0 <= k < all[i].len() implies all[i][k] != c by {
                if i < n || k < before[i].len() {
                    assert(all[i][k] == before[i][k]);
                }
            }
        }
    }
}

/// The words of a text are the pieces between separators that hold something, in order.
pub proof fn words_are_the_pieces_that_hold_something(pieces: Seq<Seq<char>>)
    ensures
        nonempty(pieces) == pieces.filter(|p: Seq<char>| p.len() > 0),
    decreases pieces.len(),
{
    reveal(Seq::filter);
    if pieces.len() > 0 {
        words_are_the_pieces_that_hold_something(pieces.drop_last());
    }
}

/// Joining puts the separator between neighbours and nowhere else.
pub proof fn joining_puts_the_separator_between(
    parts: Seq<Seq<char>>,
    last: Seq<char>,
    sep: Seq<char>,
)
    ensures
        join(Seq::empty(), sep) == Seq::<char>::empty(),
        join(seq![last], sep) == last,
        parts.len() > 0 ==> join(parts.push(last), sep) == join(parts, sep) + sep + last,
{
    assert(parts.push(last).drop_last() =~= parts);
}

/// A line ends at a line feed, with or without a carriage return before it, and a last line
/// needs no end: text after whole lines adds the line that it is.
pub proof fn lines_end_at_line_feeds(whole: Seq<char>, line: Seq<char>)
    requires
        whole.len() == 0 || whole.last() == '\n',
        forall|k: int| 0 <= k < line.len() ==> line[k] != '\n',
    ensures
        lines(whole + line.push('\n')) == lines(whole).push(
            if line.len() > 0 && line.last() == '\r' {
                line.drop_last()
            } else {
                line
            },
        ),
        line.len() > 0 ==> lines(whole + line) == lines(whole).push(line),
        lines(Seq::empty()) == Seq::<Seq<char>>::empty(),
{
    let sep = |c: char| c == '\n';
    let pieces = split_on(whole, sep);
    lemma_split_nonempty(whole, sep);
    assert(pieces.last().len() == 0);
    lemma_split_grows(whole, line);
    let with = split_on(whole + line, sep);
    assert(with == pieces.drop_last().push(line));
    let ended = (whole + line).push('\n');
    assert(ended =~= whole + line.push('\n'));
    assert(ended.drop_last() =~= whole + line);
    assert(split_on(ended, sep) == with.push(Seq::empty()));
    assert(with.push(Seq::<char>::empty()).drop_last() =~= with);
    let cut = |l: Seq<char>| without_cr(l);
    assert(with.map_values(cut) =~= pieces.drop_last().map_values(cut).push(without_cr(line)));
    assert(with.drop_last() =~= pieces.drop_last());
    assert(lines(whole) =~= pieces.drop_last().map_values(cut));
    let nothing = Seq::<char>::empty();
    assert(split_on(nothing, sep) =~= seq![nothing]);
    assert(seq![nothing].drop_last().map_values(cut) =~= Seq::<Seq<char>>::empty());
}

proof fn lemma_split_grows(whole: Seq<char>, line: Seq<char>)
    requires
        whole.len() == 0 || whole.last() == '\n',
        forall|k: int| 0 <= k < line.len() ==> line[k] != '\n',
    ensures
        split_on(whole + line, |c: char| c == '\n') == split_on(
            whole,
            |c: char| c == '\n',
        ).drop_last().push(line),
        split_on(whole, |c: char| c == '\n').last().len() == 0,
    decreases line.len(),
{
    let sep = |c: char| c == '\n';
    lemma_split_nonempty(whole, sep);
    let pieces = split_on(whole, sep);
    if line.len() == 0 {
        assert(whole + line =~= whole);
        assert(pieces.last() =~= line);
        assert(pieces.drop_last().push(line) =~= pieces);
    } else {
        let rest = line.drop_last();
        assert forall|k: int| 0 <= k < rest.len() implies rest[k] != '\n' by {
            assert(rest[k] == line[k]);
        }
        lemma_split_grows(whole, rest);
        assert((whole + line).drop_last() =~= whole + rest);
        assert((whole + line).last() == line.last());
        assert(line[line.len() - 1] != '\n');
        let before = split_on(whole + rest, sep);
        assert(rest.push(line.last()) =~= line);
        assert(before.update(before.len() - 1, before.last().push(line.last()))
            =~= pieces.drop_last().push(line));
    }
}

/// What follows a prefix is what was put after it.
pub proof fn what_follows_a_prefix(prefix: Seq<char>, rest: Seq<char>, s: Seq<char>)
    ensures
        after_prefix(prefix + rest, prefix) == Some(rest),
        after_prefix(s, prefix) matches Some(r) ==> s == prefix + r,
{
    assert(prefix =~= (prefix + rest).take(prefix.len() as int));
    assert((prefix + rest).skip(prefix.len() as int) =~= rest);
    if after_prefix(s, prefix) is Some {
        assert(s =~= prefix + s.skip(prefix.len() as int));
    }
}

/// A text that stands in another is found in it, and one that is found stands there.
pub proof fn what_stands_in_a_text_is_found(a: Seq<char>, needle: Seq<char>, b: Seq<char>)
    ensures
        contains(a + needle + b, needle),
{
    let s = a + needle + b;
    assert(s.subrange(a.len() as int, a.len() as int + needle.len()) =~= needle);
    assert(occurs_at(s, needle, a.len() as int));
}

/// A capped text is the start of the text, as long as the cap lets it be; with an ellipsis it
/// stays within the cap as well, and only a text that was cut has one put in.
pub proof fn capped_text_is_a_start(s: Seq<char>, max: int)
    requires
        max > 0,
    ensures
        head(s, max).is_prefix_of(s),
        head(s, max).len() == (if s.len() <= max {
            s.len() as int
        } else {
            max
        }),
        s.len() <= max ==> ellipsized(s, max) == s,
        s.len() > max ==> ellipsized(s, max).len() == max && ellipsized(s, max).last() == '…'
            && ellipsized(s, max).drop_last().is_prefix_of(s),
{
    assert(head(s, max) =~= s.take(head(s, max).len() as int));
    if s.len() > max {
        assert(ellipsized(s, max).drop_last() =~= s.take(max - 1));
    }
}

proof fn lemma_decimal_digits(n: nat)
    ensures
        is_number(decimal(n)),
        digits_value(decimal(n)) == n,
        decimal(n)[0] != '+',
        decimal(n)[0] != '-',
        decimal(n).len() > 1 ==> decimal(n)[0] != '0',
    decreases n,
{
    if n < 10 {
        let d = decimal(n);
        assert(d.drop_last() =~= Seq::<char>::empty());
        assert(digits_value(Seq::<char>::empty()) == 0);
        assert(digit_value(digit_char(n as int)) == n);
        assert(digits_value(d) == n);
    } else {
        let k = n / 10;
        lemma_decimal_digits(k);
        let d = decimal(n);
        assert(d.drop_last() =~= decimal(k));
        assert(digit_value(d.last()) == n % 10);
        assert forall|i: int| 0 <= i < d.len() implies ascii_digit(#[trigger] d[i]) by {
            if i < decimal(k).len() {
                assert(d[i] == decimal(k)[i]);
            }
        }
        assert(d[0] == decimal(k)[0]);
        if decimal(k).len() == 1 {
            assert(digits_value(decimal(k)) == k);
            assert(decimal(k).drop_last() =~= Seq::<char>::empty());
            assert(digits_value(Seq::<char>::empty()) == 0);
        }
    }
}

/// A number that is written in decimal reads back as itself, where it is within the bounds;
/// what holds anything but digits after its sign is no number.
pub proof fn written_number_reads_back(n: nat, m: int, max: int, s: Seq<char>)
    requires
        0 <= max,
    ensures
        parsed_nat(decimal(n), max) == (if n <= max {
            Some(n)
        } else {
            None
        }),
        -max <= m <= max ==> parsed_int(decimal_int(m), -max, max) == Some(m),
        decimal(n).len() > 1 ==> decimal(n)[0] != '0',
        parsed_nat(s, max) is Some ==> s.len() > 0 && forall|k: int|
            0 < k < s.len() ==> ('0' <= (#[trigger] s[k]) <= '9'),
{
    lemma_decimal_digits(n);
    if m < 0 {
        lemma_decimal_digits((-m) as nat);
        assert(decimal_int(m).skip(1) =~= decimal((-m) as nat));
    } else {
        lemma_decimal_digits(m as nat);
    }
    if parsed_nat(s, max) is Some {
        let body = without_plus(s);
        assert forall|k: int| 0 < k < s.len() implies ('0' <= (#[trigger] s[k]) <= '9') by {
            if s[0] == '+' {
                assert(ascii_digit(body[k - 1]));
            } else {
                assert(ascii_digit(body[k]));
            }
        }
    }
}

/// Texts are ordered by the first character in which they differ, a text before its
/// continuations; two texts that each come before the other are one.
pub proof fn texts_are_ordered_by_their_first_difference(
    common: Seq<char>,
    a: Seq<char>,
    b: Seq<char>,
)
    ensures
        a.len() > 0 && b.len() > 0 && a[0] < b[0] ==> text_le(common + a, common + b) && !text_le(
            common + b,
            common + a,
        ),
        text_le(common, common + a),
        a.len() > 0 ==> !text_le(common + a, common),
    decreases common.len(),
{
    if common.len() > 0 {
        let rest = common.skip(1);
        texts_are_ordered_by_their_first_difference(rest, a, b);
        assert((common + a).skip(1) =~= rest + a);
        assert((common + b).skip(1) =~= rest + b);
    } else {
        assert(common + a =~= a);
        assert(common + b =~= b);
    }
}

/// Lower case changes the capitals of ASCII and nothing else, one for one.
pub proof fn lower_case_changes_capitals_alone(s: Seq<char>, i: int)
    requires
        0 <= i < s.len(),
    ensures
        ascii_lowercase(s).len() == s.len(),
        !('A' <= s[i] <= 'Z') ==> ascii_lowercase(s)[i] == s[i],
        'A' <= s[i] <= 'Z' ==> 'a' <= ascii_lowercase(s)[i] <= 'z' && ascii_lowercase(s)[i] as int
            - 'a' as int == s[i] as int - 'A' as int,
        ascii_lowercase(ascii_lowercase(s)) == ascii_lowercase(s),
{
    assert(ascii_lowercase(ascii_lowercase(s)) =~= ascii_lowercase(s));
}

/// The ASCII classes of characters: digits, letters and both together, the hexadecimal digits, and
/// the white space.
pub proof fn ascii_classes_are_what_they_are(c: char)
    ensures
        ascii_digit(c) <==> 48 <= c as u32 <= 57,
        ascii_letter(c) <==> 65 <= c as u32 <= 90 || 97 <= c as u32 <= 122,
        ascii_alphanumeric(c) <==> ascii_digit(c) || ascii_letter(c),
        ascii_hexdigit(c) <==> ascii_digit(c) || 65 <= c as u32 <= 70 || 97 <= c as u32 <= 102,
        ascii_whitespace(c) <==> c as u32 == 32 || 9 <= c as u32 <= 13,
        control_char(c) <==> c as u32 <= 31 || 127 <= c as u32 <= 159,
{
}

/// A number is one or more digits, with a plus before them or without; a minus makes it negative.
pub proof fn numbers_may_have_a_sign(s: Seq<char>, max: int, i: int)
    ensures
        parsed_nat(Seq::empty(), max) is None,
        s.len() > 0 && s[0] != '+' ==> parsed_nat(seq!['+'] + s, max) == parsed_nat(s, max),
        0 <= i < s.len() && !(48 <= s[i] as u32 <= 57) && s[i] != '+' ==> parsed_nat(s, max)
            is None,
        s.len() > 0 && s[0] != '-' ==> (parsed_int(s, -max, max) is Some <==> parsed_nat(s, max)
            is Some),
        s.len() > 0 && s[0] != '-' ==> (parsed_int(s, -max, max) matches Some(n) ==> parsed_nat(
            s,
            max,
        ) == Some(n as nat)),
        s.len() > 0 && s[0] != '+' ==> (parsed_nat(s, max) matches Some(n) ==> parsed_int(
            seq!['-'] + s,
            -max,
            max,
        ) == Some(-(n as int))),
        s.len() > 0 && s[0] != '+' && parsed_nat(s, max) is None ==> parsed_int(
            seq!['-'] + s,
            -max,
            max,
        ) is None,
{
    let plus = seq!['+'] + s;
    let minus = seq!['-'] + s;
    assert(plus.skip(1) =~= s);
    assert(minus.skip(1) =~= s);
    if 0 <= i < s.len() && !(48 <= s[i] as u32 <= 57) && s[i] != '+' {
        let body = without_plus(s);
        if s[0] == '+' {
            assert(body[i - 1] == s[i]);
        } else {
            assert(body[i] == s[i]);
        }
    }
}

/// A negative number is written with a minus before its digits.
pub proof fn negative_number_has_a_minus(n: nat)
    ensures
        decimal_int(n as int) == decimal(n),
        n > 0 ==> decimal_int(-(n as int)) == seq!['-'] + decimal(n),
{
}

} // verus!
