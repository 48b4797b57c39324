//! Text as sequences of characters: lines, trimming and splitting, as they are needed to read the
//! tables that the kernel writes.
use vstd::prelude::*;
use vstd::utf8::encode_utf8;

verus! {

/// The characters with the Unicode property White_Space.
pub open spec fn is_white_space(c: char) -> bool {
    ||| '\u{9}' <= c <= '\u{d}'
    ||| c == '\u{20}'
    ||| c == '\u{85}'
    ||| c == '\u{a0}'
    ||| c == '\u{1680}'
    ||| '\u{2000}' <= c <= '\u{200a}'
    ||| c == '\u{2028}'
    ||| c == '\u{2029}'
    ||| c == '\u{202f}'
    ||| c == '\u{205f}'
    ||| c == '\u{3000}'
}

/// Text without the white space in front.
pub open spec fn trim_start(text: Seq<char>) -> Seq<char>
    decreases text.len(),
{
    if text.len() > 0 && is_white_space(text.first()) {
        trim_start(text.drop_first())
    } else {
        text
    }
}

/// Text without the white space behind.
pub open spec fn trim_end(text: Seq<char>) -> Seq<char>
    decreases text.len(),
{
    if text.len() > 0 && is_white_space(text.last()) {
        trim_end(text.drop_last())
    } else {
        text
    }
}

/// Text without the white space around it.
pub open spec fn trim(text: Seq<char>) -> Seq<char> {
    trim_end(trim_start(text))
}

/// The pieces of a text between the separators. Two separators in a row have an empty piece between
/// them; a text without separators is one piece.
pub open spec fn split(text: Seq<char>, separator: char) -> Seq<Seq<char>>
    decreases text.len(),
{
    if text.len() == 0 {
        seq![Seq::empty()]
    } else {
        let pieces = split(text.drop_last(), separator);
        if text.last() == separator {
            pieces.push(Seq::empty())
        } else {
            pieces.drop_last().push(pieces.last().push(text.last()))
        }
    }
}

/// A line that was ended by a line feed, without the carriage return that may go before it.
pub open spec fn without_carriage_return(line: Seq<char>) -> Seq<char> {
    if line.len() > 0 && line.last() == '\r' {
        line.drop_last()
    } else {
        line
    }
}

/// The lines of a text. A line feed, or a carriage return and a line feed, ends a line; the last
/// line need not be ended.
pub open spec fn lines(text: Seq<char>) -> Seq<Seq<char>> {
    let pieces = split(text, '\n');
    let ended = pieces.drop_last().map_values(|piece: Seq<char>| without_carriage_return(piece));
    if pieces.last().len() == 0 {
        ended
    } else {
        ended.push(pieces.last())
    }
}

/// The contents of slices of characters.
pub open spec fn contents(slices: Seq<&[char]>) -> Seq<Seq<char>> {
    slices.map_values(|slice: &[char]| slice@)
}

/// The contents of strings.
pub open spec fn texts(strings: Seq<String>) -> Seq<Seq<char>> {
    strings.map_values(|string: String| string@)
}

/// Whether a text begins with another.
pub open spec fn begins_with(text: Seq<char>, prefix: Seq<char>) -> bool {
    text.len() >= prefix.len() && text.take(prefix.len() as int) == prefix
}

/// The number of bytes that a text takes in UTF-8.
pub open spec fn byte_length(text: Seq<char>) -> nat {
    encode_utf8(text).len()
}

/// The characters of a string.
pub fn characters(text: &str) -> (chars: Vec<char>)
    ensures
        chars@ == text@,
{
    let mut chars: Vec<char> = Vec::new();
    for c in it: text.chars()
        invariant
            it.seq() == text@,
            chars@ == it.seq().take(it.index()),
    {
        chars.push(c);
    }
    chars
}

/// Whether a character is white space.
pub fn white_space(c: char) -> (answer: bool)
    ensures
        answer == is_white_space(c),
{
    ('\u{9}' <= c && c <= '\u{d}') || c == '\u{20}' || c == '\u{85}' || c == '\u{a0}' || c
        == '\u{1680}' || ('\u{2000}' <= c && c <= '\u{200a}') || c == '\u{2028}' || c == '\u{2029}'
        || c == '\u{202f}' || c == '\u{205f}' || c == '\u{3000}'
}

/// Takes the white space around a text away.
pub fn trimmed<'a>(text: &'a [char]) -> (rest: &'a [char])
    ensures
        rest@ == trim(text@),
{
    let mut start: usize = 0;
    assert(text@.skip(0) =~= text@);
    while start < text.len() && white_space(text[start])
        invariant
            start <= text@.len(),
            trim_start(text@.skip(start as int)) == trim_start(text@),
        decreases text@.len() - start,
    {
        assert(text@.skip(start as int).drop_first() =~= text@.skip(start + 1));
        start += 1;
    }
    let mut end: usize = text.len();
    assert(text@.subrange(start as int, end as int) =~= text@.skip(start as int));
    while start < end && white_space(text[end - 1])
        invariant
            start <= end <= text@.len(),
            trim_end(text@.subrange(start as int, end as int)) == trim(text@),
        decreases end - start,
    {
        assert(text@.subrange(start as int, end as int).drop_last() =~= text@.subrange(
            start as int,
            end - 1,
        ));
        end -= 1;
    }
    vstd::slice::slice_subrange(text, start, end)
}

/// Splits a text at every separator.
pub fn pieces<'a>(text: &'a [char], separator: char) -> (found: Vec<&'a [char]>)
    ensures
        contents(found@) == split(text@, separator),
        found@.len() >= 1,
{
    let mut found: Vec<&'a [char]> = Vec::new();
    let mut start: usize = 0;
    let mut i: usize = 0;
    assert(text@.take(0) =~= Seq::empty());
    assert(text@.subrange(0, 0) =~= Seq::empty());
    assert(contents(found@).push(Seq::empty()) =~= seq![Seq::empty()]);
    while i < text.len()
        invariant
            start <= i <= text@.len(),
            split(text@.take(i as int), separator) == contents(found@).push(
                text@.subrange(start as int, i as int),
            ),
        decreases text@.len() - i,
    {
        let ghost before = contents(found@);
        let ghost grown = text@.take(i + 1);
        assert(grown.drop_last() =~= text@.take(i as int));
        if text[i] == separator {
            found.push(vstd::slice::slice_subrange(text, start, i));
            start = i + 1;
            assert(contents(found@) =~= before.push(found@.last()@));
            assert(text@.subrange(start as int, i + 1) =~= Seq::empty());
        } else {
            assert(text@.subrange(start as int, i + 1) =~= text@.subrange(
                start as int,
                i as int,
            ).push(text@[i as int]));
            assert(before.push(text@.subrange(start as int, i as int)).drop_last() =~= before);
        }
        i += 1;
    }
    let ghost before = contents(found@);
    found.push(vstd::slice::slice_subrange(text, start, text.len()));
    assert(text@.take(i as int) =~= text@);
    assert(contents(found@) =~= before.push(found@.last()@));
    found
}

/// Splits a text into its lines.
pub fn text_lines<'a>(text: &'a [char]) -> (found: Vec<&'a [char]>)
    ensures
        contents(found@) == lines(text@),
{
    let parts = pieces(text, '\n');
    let ghost all = split(text@, '\n');
    let last: usize = parts.len() - 1;
    let mut found: Vec<&'a [char]> = Vec::new();
    let mut i: usize = 0;
    while i < last
        invariant
            i <= last,
            last == parts@.len() - 1,
            contents(parts@) == all,
            contents(found@) == all.take(i as int).map_values(
                |piece: Seq<char>| without_carriage_return(piece),
            ),
        decreases last - i,
    {
        let ghost before = contents(found@);
        let part = parts[i];
        assert(part@ == all[i as int]);
        if part.len() > 0 && part[part.len() - 1] == '\r' {
            found.push(vstd::slice::slice_subrange(part, 0, part.len() - 1));
            assert(part@.subrange(0, part@.len() - 1) =~= part@.drop_last());
        } else {
            found.push(part);
        }
        assert(contents(found@) =~= before.push(without_carriage_return(all[i as int])));
        assert(all.take(i + 1) =~= all.take(i as int).push(all[i as int]));
        assert(contents(found@) =~= all.take(i + 1).map_values(
            |piece: Seq<char>| without_carriage_return(piece),
        ));
        i += 1;
    }
    assert(all.drop_last() =~= all.take(last as int));
    assert(parts@[last as int]@ == all.last());
    if parts[last].len() > 0 {
        let ghost before = contents(found@);
        found.push(parts[last]);
        assert(contents(found@) =~= before.push(all.last()));
    }
    found
}

/// Whether a text begins with another.
pub fn starts_with(text: &[char], prefix: &[char]) -> (answer: bool)
    ensures
        answer == begins_with(text@, prefix@),
{
    if text.len() < prefix.len() {
        return false;
    }
    let mut i: usize = 0;
    while i < prefix.len()
        invariant
            i <= prefix@.len() <= text@.len(),
            forall|k: int| 0 <= k < i ==> text@[k] == prefix@[k],
        decreases prefix@.len() - i,
    {
        if text[i] != prefix[i] {
            assert(text@.take(prefix@.len() as int)[i as int] != prefix@[i as int]);
            return false;
        }
        i += 1;
    }
    assert(text@.take(prefix@.len() as int) =~= prefix@);
    true
}

/// Counts the bytes that characters take in UTF-8.
pub fn utf8_length(text: &[char]) -> (length: u128)
    ensures
        length == byte_length(text@),
{
    let mut length: u128 = 0;
    let mut i: usize = text.len();
    assert(text@.skip(i as int) =~= Seq::empty());
    while i > 0
        invariant
            i <= text@.len(),
            length == byte_length(text@.skip(i as int)),
            length <= 4 * (text@.len() - i),
            text@.len() <= usize::MAX,
        decreases i,
    {
        let ghost rest = text@.skip(i - 1);
        assert(rest.drop_first() =~= text@.skip(i as int));
        i -= 1;
        let code: u32 = text[i] as u32;
        proof {
            vstd::utf8::char_is_scalar(text@[i as int]);
        }
        assert(rest[0] == text@[i as int]);
        let width: u128 = if code < 0x80 {
            1
        } else if code < 0x800 {
            2
        } else if code < 0x1_0000 {
            3
        } else {
            4
        };
        length += width;
    }
    assert(text@.skip(0) =~= text@);
    length
}

/// Pieces with a separator between each two of them.
pub open spec fn join(parts: Seq<Seq<char>>, separator: char) -> Seq<char>
    decreases parts.len(),
{
    if parts.len() == 0 {
        Seq::empty()
    } else if parts.len() == 1 {
        parts[0]
    } else {
        join(parts.drop_last(), separator).push(separator) + parts.last()
    }
}

/// Lines, each ended by a line feed.
pub open spec fn ended_lines(rows: Seq<Seq<char>>) -> Seq<char>
    decreases rows.len(),
{
    if rows.len() == 0 {
        Seq::empty()
    } else {
        ended_lines(rows.drop_last()) + rows.last().push('\n')
    }
}

/// A text behind a separator that holds none is one more piece.
proof fn lemma_split_behind_separator(front: Seq<char>, piece: Seq<char>, separator: char)
    requires
        !piece.contains(separator),
    ensures
        split(front.push(separator) + piece, separator) == split(front, separator).push(piece),
    decreases piece.len(),
{
    let text = front.push(separator) + piece;
    let before = split(front, separator);
    if piece.len() == 0 {
        assert(text =~= front.push(separator));
        assert(text.drop_last() =~= front);
        assert(piece =~= Seq::empty());
    } else {
        let shorter = piece.drop_last();
        assert(!shorter.contains(separator)) by {
            assert forall|i: int| 0 <= i < shorter.len() implies shorter[i] != separator by {
                assert(shorter[i] == piece[i]);
            }
        }
        lemma_split_behind_separator(front, shorter, separator);
        assert(text.drop_last() =~= front.push(separator) + shorter);
        assert(text.last() == piece[piece.len() - 1]);
        assert(before.push(shorter).drop_last() =~= before);
        assert(shorter.push(piece.last()) =~= piece);
    }
}

/// A text without separators is one piece.
proof fn lemma_split_without_separator(piece: Seq<char>, separator: char)
    requires
        !piece.contains(separator),
    ensures
        split(piece, separator) == seq![piece],
    decreases piece.len(),
{
    if piece.len() == 0 {
        assert(piece =~= Seq::empty());
    } else {
        let shorter = piece.drop_last();
        assert(!shorter.contains(separator)) by {
            assert forall|i: int| 0 <= i < shorter.len() implies shorter[i] != separator by {
                assert(shorter[i] == piece[i]);
            }
        }
        lemma_split_without_separator(shorter, separator);
        assert(piece.last() == piece[piece.len() - 1]);
        assert(shorter.push(piece.last()) =~= piece);
        assert(split(piece, separator) =~= seq![piece]);
    }
}

/// Splitting gives back the pieces that were joined, if none of them holds the separator.
pub proof fn law_split_undoes_join(parts: Seq<Seq<char>>, separator: char)
    requires
        parts.len() >= 1,
        forall|i: int| 0 <= i < parts.len() ==> !(#[trigger] parts[i]).contains(separator),
    ensures
        split(join(parts, separator), separator) == parts,
    decreases parts.len(),
{
    assert(!parts[parts.len() - 1].contains(separator));
    if parts.len() == 1 {
        lemma_split_without_separator(parts[0], separator);
        assert(parts =~= seq![parts[0]]);
    } else {
        let front = parts.drop_last();
        assert forall|i: int| 0 <= i < front.len() implies !(#[trigger] front[i]).contains(
            separator,
        ) by {
            assert(front[i] == parts[i]);
        }
        law_split_undoes_join(front, separator);
        lemma_split_behind_separator(join(front, separator), parts.last(), separator);
        assert(front.push(parts.last()) =~= parts);
    }
}

/// Joining gives back the text that was split, and none of the pieces holds the separator.
pub proof fn law_join_undoes_split(text: Seq<char>, separator: char)
    ensures
        split(text, separator).len() >= 1,
        join(split(text, separator), separator) == text,
        forall|i: int|
            0 <= i < split(text, separator).len() ==> !(#[trigger] split(
                text,
                separator,
            )[i]).contains(separator),
    decreases text.len(),
{
    let all = split(text, separator);
    if text.len() == 0 {
        assert(text =~= Seq::empty());
    } else {
        let front = text.drop_last();
        let before = split(front, separator);
        law_join_undoes_split(front, separator);
        assert(front.push(text.last()) =~= text);
        if text.last() == separator {
            assert(all.drop_last() =~= before);
            assert(join(all, separator) =~= text);
            assert forall|i: int| 0 <= i < all.len() implies !(#[trigger] all[i]).contains(
                separator,
            ) by {
                if i < before.len() {
                    assert(all[i] == before[i]);
                }
            }
        } else {
            let grown = before.last().push(text.last());
            assert(all.drop_last() =~= before.drop_last());
            assert(!before[before.len() - 1].contains(separator));
            assert(!grown.contains(separator)) by {
                assert forall|i: int| 0 <= i < grown.len() implies grown[i] != separator by {
                    if i < before.last().len() {
                        assert(grown[i] == before.last()[i]);
                    }
                }
            }
            assert forall|i: int| 0 <= i < all.len() implies !(#[trigger] all[i]).contains(
                separator,
            ) by {
                if i < before.len() - 1 {
                    assert(all[i] == before[i]);
                }
            }
            assert(join(all, separator) =~= join(before, separator).push(text.last()));
        }
    }
}

proof fn lemma_split_ended_lines(rows: Seq<Seq<char>>)
    requires
        forall|i: int| 0 <= i < rows.len() ==> !(#[trigger] rows[i]).contains('\n'),
    ensures
        split(ended_lines(rows), '\n') == rows.push(Seq::empty()),
    decreases rows.len(),
{
    if rows.len() == 0 {
        assert(rows.push(Seq::empty()) =~= seq![Seq::empty()]);
    } else {
        let front = rows.drop_last();
        let last = rows.last();
        let before = ended_lines(front);
        assert(!rows[rows.len() - 1].contains('\n'));
        assert forall|i: int| 0 <= i < front.len() implies !(#[trigger] front[i]).contains(
            '\n',
        ) by {
            assert(front[i] == rows[i]);
        }
        lemma_split_ended_lines(front);
        lemma_split_grows_last(before, last);
        let text = ended_lines(rows);
        assert(text.drop_last() =~= before + last);
        assert(text.last() == '\n');
        assert(split(before, '\n').drop_last() =~= front);
        assert(Seq::<char>::empty() + last =~= last);
        assert(front.push(last) =~= rows);
    }
}

/// A text that holds no line feed adds to the last piece of what goes before it.
proof fn lemma_split_grows_last(front: Seq<char>, piece: Seq<char>)
    requires
        !piece.contains('\n'),
    ensures
        split(front, '\n').len() >= 1,
        split(front + piece, '\n') == split(front, '\n').drop_last().push(
            split(front, '\n').last() + piece,
        ),
    decreases piece.len(),
{
    law_join_undoes_split(front, '\n');
    let before = split(front, '\n');
    if piece.len() == 0 {
        assert(front + piece =~= front);
        assert(before.last() + piece =~= before.last());
        assert(before.drop_last().push(before.last()) =~= before);
    } else {
        let shorter = piece.drop_last();
        assert(!shorter.contains('\n')) by {
            assert forall|i: int| 0 <= i < shorter.len() implies shorter[i] != '\n' by {
                assert(shorter[i] == piece[i]);
            }
        }
        lemma_split_grows_last(front, shorter);
        let text = front + piece;
        assert(text.drop_last() =~= front + shorter);
        assert(text.last() == piece[piece.len() - 1]);
        assert(before.drop_last().push(before.last() + shorter).drop_last()
            =~= before.drop_last());
        assert((before.last() + shorter).push(piece.last()) =~= before.last() + piece);
    }
}

/// The lines of a text are those that were written, if none of them holds a line feed or ends with
/// a carriage return.
pub proof fn law_lines_read_back(rows: Seq<Seq<char>>)
    requires
        forall|i: int|
            0 <= i < rows.len() ==> {
                &&& !(#[trigger] rows[i]).contains('\n')
                &&& rows[i].len() > 0 ==> rows[i].last() != '\r'
            },
    ensures
        lines(ended_lines(rows)) == rows,
{
    lemma_split_ended_lines(rows);
    assert(rows.push(Seq::empty()).drop_last() =~= rows);
    assert(rows.map_values(|piece: Seq<char>| without_carriage_return(piece)) =~= rows);
}

/// Trimming a text twice is trimming it once.
pub proof fn law_trimming_is_idempotent(text: Seq<char>)
    ensures
        trim(trim(text)) == trim(text),
{
    lemma_trim_start(text);
    lemma_trim_end(trim_start(text));
    let once = trim(text);
    assert(trim_start(once) == once) by {
        if once.len() > 0 {
            assert(once[0] == trim_start(text)[0]);
        }
    }
}

proof fn lemma_trim_start(text: Seq<char>)
    ensures
        trim_start(text).len() > 0 ==> !is_white_space(trim_start(text)[0]),
    decreases text.len(),
{
    if text.len() > 0 && is_white_space(text.first()) {
        lemma_trim_start(text.drop_first());
    }
}

proof fn lemma_trim_end(text: Seq<char>)
    ensures
        trim_end(text).len() <= text.len(),
        trim_end(text) == text.take(trim_end(text).len() as int),
        trim_end(text).len() > 0 ==> !is_white_space(trim_end(text).last()),
    decreases text.len(),
{
    if text.len() > 0 && is_white_space(text.last()) {
        lemma_trim_end(text.drop_last());
        let shorter = trim_end(text);
        assert(text.drop_last().take(shorter.len() as int) =~= text.take(shorter.len() as int));
    } else {
        assert(text.take(text.len() as int) =~= text);
    }
}

/// Whether a text is made of white space alone.
pub open spec fn is_blank(text: Seq<char>) -> bool {
    forall|i: int| 0 <= i < text.len() ==> is_white_space(#[trigger] text[i])
}

/// White space put around a text makes no difference to what trimming leaves of it.
pub proof fn law_white_space_around_a_text_is_trimmed(
    before: Seq<char>,
    text: Seq<char>,
    after: Seq<char>,
)
    requires
        is_blank(before),
        is_blank(after),
    ensures
        trim(before + text + after) == trim(text),
{
    assert(before + text + after =~= before + (text + after));
    lemma_trim_start_passes_blank(before, text + after);
    lemma_trim_start_stops(text, after);
    if is_blank(text) {
        lemma_trim_start_passes_blank(text, Seq::empty());
        assert(text + Seq::empty() =~= text);
        lemma_trim_start_passes_blank(text, after);
        lemma_trim_start_passes_blank(after, Seq::empty());
        assert(after + Seq::empty() =~= after);
    } else {
        lemma_trim_end_passes_blank(trim_start(text), after);
    }
}

proof fn lemma_trim_start_passes_blank(blank: Seq<char>, text: Seq<char>)
    requires
        is_blank(blank),
    ensures
        trim_start(blank + text) == trim_start(text),
    decreases blank.len(),
{
    if blank.len() == 0 {
        assert(blank + text =~= text);
    } else {
        let rest = blank.drop_first();
        assert forall|i: int| 0 <= i < rest.len() implies is_white_space(#[trigger] rest[i]) by {
            assert(rest[i] == blank[i + 1]);
        }
        lemma_trim_start_passes_blank(rest, text);
        assert(is_white_space(blank[0]));
        assert((blank + text).drop_first() =~= rest + text);
    }
}

proof fn lemma_trim_end_passes_blank(text: Seq<char>, blank: Seq<char>)
    requires
        is_blank(blank),
    ensures
        trim_end(text + blank) == trim_end(text),
    decreases blank.len(),
{
    if blank.len() == 0 {
        assert(text + blank =~= text);
    } else {
        let rest = blank.drop_last();
        assert forall|i: int| 0 <= i < rest.len() implies is_white_space(#[trigger] rest[i]) by {
            assert(rest[i] == blank[i]);
        }
        lemma_trim_end_passes_blank(text, rest);
        assert(is_white_space(blank[blank.len() - 1]));
        assert((text + blank).drop_last() =~= text + rest);
    }
}

/// What follows a text that is not blank stays behind it when its front is trimmed.
proof fn lemma_trim_start_stops(text: Seq<char>, after: Seq<char>)
    ensures
        !is_blank(text) ==> trim_start(text + after) == trim_start(text) + after,
    decreases text.len(),
{
    if !is_blank(text) && is_white_space(text[0]) {
        let rest = text.drop_first();
        lemma_trim_start_stops(rest, after);
        assert(!is_blank(rest)) by {
            let i = choose|i: int| 0 <= i < text.len() && !is_white_space(#[trigger] text[i]);
            assert(rest[i - 1] == text[i]);
        }
        assert((text + after).drop_first() =~= rest + after);
    }
}

/// White space are the characters of these codes and no others.
pub proof fn law_white_space_codes(c: char)
    ensures
        is_white_space(c) <==> {
            let code = c as int;
            ||| 9 <= code <= 13
            ||| code == 32
            ||| code == 133
            ||| code == 160
            ||| code == 5760
            ||| 8192 <= code <= 8202
            ||| code == 8232
            ||| code == 8233
            ||| code == 8239
            ||| code == 8287
            ||| code == 12288
        },
{
}

/// Trimming a text takes white space from its ends and nothing else, and leaves none there.
pub proof fn law_trimming_takes_the_white_space_at_the_ends(text: Seq<char>)
    ensures
        exists|start: int, end: int|
            {
                &&& 0 <= start <= end <= text.len()
                &&& #[trigger] text.subrange(start, end) == trim(text)
                &&& forall|i: int| 0 <= i < start ==> is_white_space(#[trigger] text[i])
                &&& forall|i: int| end <= i < text.len() ==> is_white_space(#[trigger] text[i])
            },
        trim(text).len() > 0 ==> !is_white_space(trim(text)[0]),
        trim(text).len() > 0 ==> !is_white_space(trim(text)[trim(text).len() - 1]),
{
    let front = trim_start(text);
    let start = text.len() - front.len();
    lemma_trim_start(text);
    lemma_trim_start_is_a_skip(text);
    lemma_trim_end(front);
    lemma_trim_end_takes_white_space(front);
    let end = start + trim(text).len();
    assert(text.subrange(start, end) =~= trim(text));
    assert forall|i: int| end <= i < text.len() implies is_white_space(#[trigger] text[i]) by {
        assert(text[i] == front[i - start]);
    }
    if trim(text).len() > 0 {
        assert(trim(text)[0] == front[0]);
    }
}

proof fn lemma_trim_start_is_a_skip(text: Seq<char>)
    ensures
        trim_start(text).len() <= text.len(),
        trim_start(text) == text.skip(text.len() - trim_start(text).len()),
        forall|i: int|
            0 <= i < text.len() - trim_start(text).len() ==> is_white_space(#[trigger] text[i]),
    decreases text.len(),
{
    if text.len() > 0 && is_white_space(text.first()) {
        let rest = text.drop_first();
        lemma_trim_start_is_a_skip(rest);
        let count = text.len() - trim_start(text).len();
        assert(rest.skip(count - 1) =~= text.skip(count));
        assert forall|i: int| 0 <= i < count implies is_white_space(#[trigger] text[i]) by {
            if i > 0 {
                assert(text[i] == rest[i - 1]);
            }
        }
    } else {
        assert(text.skip(0) =~= text);
    }
}

proof fn lemma_trim_end_takes_white_space(text: Seq<char>)
    ensures
        forall|i: int|
            trim_end(text).len() <= i < text.len() ==> is_white_space(#[trigger] text[i]),
    decreases text.len(),
{
    if text.len() > 0 && is_white_space(text.last()) {
        let front = text.drop_last();
        lemma_trim_end_takes_white_space(front);
        assert forall|i: int| trim_end(text).len() <= i < text.len() implies is_white_space(
            #[trigger] text[i],
        ) by {
            if i < front.len() {
                assert(text[i] == front[i]);
            }
        }
    }
}

/// The lines of a text are what stands before each line feed, less one carriage return at its end,
/// and what stands behind the last line feed, as it is, unless that is nothing.
pub proof fn law_lines_of_a_text(rows: Seq<Seq<char>>, rest: Seq<char>)
    requires
        forall|i: int| 0 <= i < rows.len() ==> !(#[trigger] rows[i]).contains('\n'),
        !rest.contains('\n'),
    ensures
        lines(ended_lines(rows) + rest).len() == rows.len() + (if rest.len() > 0 {
            1int
        } else {
            0
        }),
        forall|i: int|
            0 <= i < rows.len() ==> lines(ended_lines(rows) + rest)[i] == (if (
            #[trigger] rows[i]).len() > 0 && rows[i].last() == '\r' {
                rows[i].drop_last()
            } else {
                rows[i]
            }),
        rest.len() > 0 ==> lines(ended_lines(rows) + rest)[rows.len() as int] == rest,
{
    lemma_split_ended_lines(rows);
    lemma_split_grows_last(ended_lines(rows), rest);
    assert(rows.push(Seq::empty()).drop_last() =~= rows);
    assert(Seq::<char>::empty() + rest =~= rest);
    assert(rows.push(rest).drop_last() =~= rows);
}

/// A text begins with another exactly when something can be put behind that other to make it.
pub proof fn law_beginnings(prefix: Seq<char>, rest: Seq<char>, text: Seq<char>)
    ensures
        begins_with(prefix + rest, prefix),
        begins_with(text, prefix) ==> text == prefix + text.skip(prefix.len() as int),
{
    assert((prefix + rest).take(prefix.len() as int) =~= prefix);
    if begins_with(text, prefix) {
        assert(text =~= text.take(prefix.len() as int) + text.skip(prefix.len() as int));
    }
}

/// The length of a text in bytes is that of its UTF-8 encoding.
pub proof fn law_byte_length(text: Seq<char>)
    ensures
        byte_length(text) == encode_utf8(text).len(),
{
}

/// The contents of strings and of slices are those of each of them, in their order.
pub proof fn law_contents(strings: Seq<String>, slices: Seq<&[char]>)
    ensures
        texts(strings).len() == strings.len(),
        forall|i: int| 0 <= i < strings.len() ==> texts(strings)[i] == (#[trigger] strings[i])@,
        contents(slices).len() == slices.len(),
        forall|i: int| 0 <= i < slices.len() ==> contents(slices)[i] == (#[trigger] slices[i])@,
{
}

} // verus!
