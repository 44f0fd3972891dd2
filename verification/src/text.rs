//! Plain text: trimming, lines, pieces and prefixes, over sequences of characters.
use vstd::prelude::*;

verus! {

/// The characters with the Unicode property `White_Space`.
pub open spec fn white_space(c: char) -> bool {
    let n = c as u32;
    ||| 0x9 <= n <= 0xd
    ||| n == 0x20
    ||| n == 0x85
    ||| n == 0xa0
    ||| n == 0x1680
    ||| 0x2000 <= n <= 0x200a
    ||| n == 0x2028
    ||| n == 0x2029
    ||| n == 0x202f
    ||| n == 0x205f
    ||| n == 0x3000
}

/// Whether a character has the Unicode property `White_Space`.
pub fn is_white(c: char) -> (r: bool)
    ensures
        r == white_space(c),
{
    let n: u32 = c as u32;
    (0x9 <= n && n <= 0xd) || n == 0x20 || n == 0x85 || n == 0xa0 || n == 0x1680 || (0x2000 <= n
        && n <= 0x200a) || n == 0x2028 || n == 0x2029 || n == 0x202f || n == 0x205f || n == 0x3000
}

/// `String::push`: the character is appended at the end.
pub assume_specification[ String::push ](s: &mut String, c: char)
    ensures
        final(s)@ == old(s)@.push(c),
;

/// The characters of each string of a sequence.
pub open spec fn texts(strings: Seq<String>) -> Seq<Seq<char>> {
    Seq::new(strings.len(), |i: int| strings[i]@)
}

/// A text without the white space at its end.
pub open spec fn trimmed_end(s: Seq<char>) -> Seq<char>
    decreases s.len(),
{
    if s.len() > 0 && white_space(s.last()) {
        trimmed_end(s.drop_last())
    } else {
        s
    }
}

/// A text without the white space at its start.
pub open spec fn trimmed_start(s: Seq<char>) -> Seq<char>
    decreases s.len(),
{
    if s.len() > 0 && white_space(s.first()) {
        trimmed_start(s.drop_first())
    } else {
        s
    }
}

/// A text without the white space at both ends.
pub open spec fn trimmed(s: Seq<char>) -> Seq<char> {
    trimmed_start(trimmed_end(s))
}

/// The pieces of a text between the occurrences of a separator: always one more than there
/// are separators.
pub open spec fn pieces(s: Seq<char>, separator: char) -> Seq<Seq<char>>
    decreases s.len(),
{
    if s.len() == 0 {
        seq![Seq::<char>::empty()]
    } else {
        let before = pieces(s.drop_last(), separator);
        if s.last() == separator {
            before.push(Seq::<char>::empty())
        } else {
            before.drop_last().push(before.last().push(s.last()))
        }
    }
}

/// A line without a carriage return at its end.
pub open spec fn without_return(line: Seq<char>) -> Seq<char> {
    if line.len() > 0 && line.last() == '\r' {
        line.drop_last()
    } else {
        line
    }
}

/// The lines of a text. A line ends with a line feed or with a carriage return and a line
/// feed, neither of which belongs to it; the end of the last line is optional.
pub open spec fn lines_of(s: Seq<char>) -> Seq<Seq<char>> {
    let parts = pieces(s, '\n');
    let ended = Seq::new((parts.len() - 1) as nat, |i: int| without_return(parts[i]));
    if parts.last().len() == 0 {
        ended
    } else {
        ended.push(parts.last())
    }
}

/// The line that a text leaves open: what follows its last line feed.
pub open spec fn open_line(s: Seq<char>) -> Seq<char> {
    pieces(s, '\n').last()
}

/// The characters of a text as a vector.
pub(crate) fn chars_of(s: &str) -> (r: Vec<char>)
    ensures
        r@ == s@,
{
    let mut out: Vec<char> = Vec::new();
    for c in it: s.chars()
        invariant
            out@ == it.seq().take(it.index() as int),
            it.seq() == s@,
    {
        out.push(c);
    }
    out
}

/// The characters from position `from` up to `to` as a string.
pub(crate) fn string_of(chars: &Vec<char>, from: usize, to: usize) -> (r: String)
    requires
        from <= to <= chars@.len(),
    ensures
        r@ == chars@.subrange(from as int, to as int),
{
    let mut out = String::new();
    let mut i: usize = from;
    while i < to
        invariant
            from <= i <= to <= chars@.len(),
            out@ == chars@.subrange(from as int, i as int),
        decreases to - i,
    {
        out.push(chars[i]);
        proof {
            assert(chars@.subrange(from as int, i + 1) =~= chars@.subrange(from as int, i as int).push(
                chars@[i as int],
            ));
        }
        i += 1;
    }
    out
}

/// Whether two texts have the same characters.
pub fn same(a: &str, b: &str) -> (r: bool)
    ensures
        r == (a@ == b@),
{
    a.to_owned() == b.to_owned()
}

/// The text without the white space at its end.
pub fn trim_end(s: &str) -> (r: String)
    ensures
        r@ == trimmed_end(s@),
{
    let chars = chars_of(s);
    let mut end: usize = chars.len();
    assert(chars@.take(end as int) =~= chars@);
    while end > 0 && is_white(chars[end - 1])
        invariant
            end <= chars@.len(),
            trimmed_end(chars@.take(end as int)) == trimmed_end(chars@),
        ensures
            end <= chars@.len(),
            trimmed_end(chars@.take(end as int)) == trimmed_end(chars@),
            end > 0 ==> !white_space(chars@[end - 1]),
        decreases end,
    {
        assert(chars@.take(end as int).drop_last() =~= chars@.take(end - 1));
        end -= 1;
    }
    assert(chars@.subrange(0, end as int) =~= chars@.take(end as int));
    string_of(&chars, 0, end)
}

/// The text without the white space at both ends.
pub fn trim(s: &str) -> (r: String)
    ensures
        r@ == trimmed(s@),
{
    let kept = trim_end(s);
    let chars = chars_of(kept.as_str());
    let mut start: usize = 0;
    assert(chars@.skip(0) =~= chars@);
    while start < chars.len() && is_white(chars[start])
        invariant
            start <= chars@.len(),
            trimmed_start(chars@.skip(start as int)) == trimmed_start(chars@),
        ensures
            start <= chars@.len(),
            trimmed_start(chars@.skip(start as int)) == trimmed_start(chars@),
            start < chars@.len() ==> !white_space(chars@[start as int]),
        decreases chars@.len() - start,
    {
        assert(chars@.skip(start as int).drop_first() =~= chars@.skip(start + 1));
        start += 1;
    }
    assert(chars@.subrange(start as int, chars@.len() as int) =~= chars@.skip(start as int));
    string_of(&chars, start, chars.len())
}

/// Whether a text is one of some texts.
pub fn listed(names: &Vec<String>, name: &str) -> (r: bool)
    ensures
        r == texts(names@).contains(name@),
{
    let mut i: usize = 0;
    while i < names.len()
        invariant
            i <= names@.len(),
            forall|j: int| 0 <= j < i ==> (#[trigger] names@[j])@ != name@,
        decreases names@.len() - i,
    {
        if same(names[i].as_str(), name) {
            assert(texts(names@)[i as int] == name@);
            return true;
        }
        i += 1;
    }
    assert forall|j: int| 0 <= j < names@.len() implies texts(names@)[j] != name@ by {
        assert(names@[j]@ != name@);
    }
    false
}

/// The pieces of a text between the occurrences of a separator.
pub fn split(s: &str, separator: char) -> (r: Vec<String>)
    ensures
        texts(r@) == pieces(s@, separator),
{
    let chars = chars_of(s);
    let mut done: Vec<String> = Vec::new();
    let mut current = String::new();
    let mut i: usize = 0;
    assert(chars@.take(0) =~= Seq::<char>::empty());
    assert(texts(done@).push(current@) =~= seq![Seq::<char>::empty()]);
    while i < chars.len()
        invariant
            i <= chars@.len(),
            texts(done@).push(current@) == pieces(chars@.take(i as int), separator),
        decreases chars@.len() - i,
    {
        let ghost before = texts(done@).push(current@);
        let c = chars[i];
        proof {
            assert(chars@.take(i + 1).drop_last() =~= chars@.take(i as int));
            assert(before.drop_last() =~= texts(done@));
        }
        if c == separator {
            done.push(current);
            current = String::new();
            assert(texts(done@).push(current@) =~= before.push(Seq::<char>::empty()));
        } else {
            current.push(c);
        }
        i += 1;
    }
    assert(chars@.take(i as int) =~= chars@);
    let ghost earlier = done@;
    let ghost tail = current@;
    done.push(current);
    assert(texts(done@) =~= texts(earlier).push(tail));
    done
}

/// The lines of a text.
pub fn lines(s: &str) -> (r: Vec<String>)
    ensures
        texts(r@) == lines_of(s@),
{
    let parts = split(s, '\n');
    let ghost split_parts = pieces(s@, '\n');
    proof {
        lemma_pieces_nonempty(s@, '\n');
        assert(texts(parts@).len() == parts@.len());
    }
    let last: usize = parts.len() - 1;
    let mut out: Vec<String> = Vec::new();
    let mut i: usize = 0;
    while i < last
        invariant
            i <= last,
            last == parts@.len() - 1,
            out@.len() == i,
            forall|j: int| 0 <= j < i ==> (#[trigger] out@[j])@ == without_return(parts@[j]@),
        decreases last - i,
    {
        let chars = chars_of(parts[i].as_str());
        let n: usize = chars.len();
        if n > 0 && chars[n - 1] == '\r' {
            assert(chars@.subrange(0, n - 1) =~= chars@.drop_last());
            out.push(string_of(&chars, 0, n - 1));
        } else {
            assert(chars@.subrange(0, n as int) =~= chars@);
            out.push(string_of(&chars, 0, n));
        }
        i += 1;
    }
    let ghost ended = Seq::new((split_parts.len() - 1) as nat, |k: int| without_return(split_parts[k]));
    proof {
        assert forall|k: int| 0 <= k < parts@.len() implies (#[trigger] parts@[k])@ == split_parts[k] by {
            assert(texts(parts@)[k] == parts@[k]@);
        }
        assert(texts(out@) =~= ended);
    }
    if parts[last].as_str().is_empty() {
        assert(texts(out@) =~= lines_of(s@));
    } else {
        out.push(parts[last].clone());
        assert(texts(out@) =~= ended.push(split_parts.last()));
    }
    out
}

/// The line that a text leaves open: what follows its last line feed.
pub fn last_line(s: &str) -> (r: String)
    ensures
        r@ == open_line(s@),
{
    let parts = split(s, '\n');
    proof {
        lemma_pieces_nonempty(s@, '\n');
        assert(texts(parts@).len() == parts@.len());
        assert(texts(parts@)[parts@.len() - 1] == parts@[parts@.len() - 1]@);
    }
    parts[parts.len() - 1].clone()
}

/// What follows `prefix` in a text that begins with it.
pub fn after_prefix(s: &str, prefix: &str) -> (r: Option<String>)
    ensures
        match r {
            Some(rest) => prefix@.is_prefix_of(s@) && rest@ == s@.skip(prefix@.len() as int),
            None => !prefix@.is_prefix_of(s@),
        },
{
    let chars = chars_of(s);
    let wanted = chars_of(prefix);
    if wanted.len() > chars.len() {
        return None;
    }
    let mut i: usize = 0;
    while i < wanted.len()
        invariant
            i <= wanted@.len() <= chars@.len(),
            chars@ == s@,
            wanted@ == prefix@,
            forall|j: int| 0 <= j < i ==> chars@[j] == wanted@[j],
        decreases wanted@.len() - i,
    {
        if chars[i] != wanted[i] {
            assert(s@.subrange(0, prefix@.len() as int)[i as int] == s@[i as int]);
            return None;
        }
        i += 1;
    }
    assert(s@.subrange(0, prefix@.len() as int) =~= prefix@);
    assert(s@.subrange(prefix@.len() as int, s@.len() as int) =~= s@.skip(prefix@.len() as int));
    Some(string_of(&chars, wanted.len(), chars.len()))
}

/// There is always at least one piece.
proof fn lemma_pieces_nonempty(s: Seq<char>, separator: char)
    ensures
        pieces(s, separator).len() > 0,
    decreases s.len(),
{
    if s.len() > 0 {
        lemma_pieces_nonempty(s.drop_last(), separator);
    }
}

/// Whether a text leaves no line open.
pub open spec fn at_line_start(s: Seq<char>) -> bool {
    s.len() == 0 || s.last() == '\n'
}

/// The pieces of what follows a line feed come after those of what stands before it.
proof fn lemma_pieces_after_break(head: Seq<char>, rest: Seq<char>)
    ensures
        pieces(head.push('\n') + rest, '\n') == pieces(head, '\n') + pieces(rest, '\n'),
{
    law_separator_parts(head, rest, '\n');
}

/// A separator parts a text: the pieces are those before it and then those after it.
pub proof fn law_separator_parts(head: Seq<char>, rest: Seq<char>, separator: char)
    ensures
        pieces(head.push(separator) + rest, separator) == pieces(head, separator) + pieces(
            rest,
            separator,
        ),
    decreases rest.len(),
{
    let all = head.push(separator) + rest;
    if rest.len() == 0 {
        assert(all =~= head.push(separator));
        assert(all.drop_last() =~= head);
        assert(pieces(all, separator) =~= pieces(head, separator) + pieces(rest, separator));
    } else {
        law_separator_parts(head, rest.drop_last(), separator);
        lemma_pieces_nonempty(rest.drop_last(), separator);
        assert(all.drop_last() =~= head.push(separator) + rest.drop_last());
        assert(pieces(all, separator) =~= pieces(head, separator) + pieces(rest, separator));
    }
}

/// A text without the separator is its only piece.
pub proof fn law_one_piece(s: Seq<char>, separator: char)
    requires
        !s.contains(separator),
    ensures
        pieces(s, separator) == seq![s],
    decreases s.len(),
{
    if s.len() == 0 {
        assert(s =~= Seq::<char>::empty());
    } else {
        let rest = s.drop_last();
        assert(s[s.len() - 1] != separator);
        assert(!rest.contains(separator)) by {
            if rest.contains(separator) {
                let k = choose|k: int| 0 <= k < rest.len() && rest[k] == separator;
                assert(s[k] == separator);
            }
        }
        law_one_piece(rest, separator);
        assert(rest.push(s.last()) =~= s);
        assert(pieces(s, separator) =~= seq![s]);
    }
}

/// The first line of a text is what stands before its first line feed, without a carriage
/// return at its end; the other lines are those of what follows. A text without a line feed
/// is one line, as it stands, or none where it is empty. It is also the line that is open.
pub proof fn law_lines(first: Seq<char>, rest: Seq<char>)
    requires
        !first.contains('\n'),
    ensures
        first.len() > 0 && first.last() == '\r' ==> lines_of(first.push('\n') + rest) == seq![
            first.take(first.len() - 1),
        ] + lines_of(rest),
        !(first.len() > 0 && first.last() == '\r') ==> lines_of(first.push('\n') + rest) == seq![
            first,
        ] + lines_of(rest),
        open_line(first.push('\n') + rest) == open_line(rest),
        first.len() > 0 ==> lines_of(first) == seq![first],
        first.len() == 0 ==> lines_of(first).len() == 0,
        open_line(first) == first,
{
    law_one_piece(first, '\n');
    let start = first.push('\n');
    law_separator_parts(first, Seq::empty(), '\n');
    assert(start + Seq::<char>::empty() =~= start);
    assert(pieces(start, '\n') =~= seq![first, Seq::<char>::empty()]);
    law_lines_in_runs(start, rest);
    if first.len() > 0 && first.last() == '\r' {
        assert(first.drop_last() =~= first.take(first.len() - 1));
        assert(lines_of(start) =~= seq![first.take(first.len() - 1)]);
    } else {
        assert(lines_of(start) =~= seq![first]);
    }
    if first.len() > 0 {
        assert(lines_of(first) =~= seq![first]);
    }
}

/// Trimming takes off all the white space at both ends and nothing else: what is left stands
/// in the text between two runs of white space, and neither begins nor ends with any.
pub proof fn law_trimmed(s: Seq<char>) -> (from: int)
    ensures
        0 <= from <= from + trimmed(s).len() <= s.len(),
        trimmed(s) == s.subrange(from, from + trimmed(s).len()),
        forall|i: int| 0 <= i < from ==> white_space(#[trigger] s[i]),
        forall|i: int| from + trimmed(s).len() <= i < s.len() ==> white_space(#[trigger] s[i]),
        trimmed(s).len() > 0 ==> !white_space(trimmed(s).first()) && !white_space(
            trimmed(s).last(),
        ),
{
    law_trimmed_end(s);
    let kept = trimmed_end(s);
    assert(kept =~= s.subrange(0, kept.len() as int));
    let from = lemma_trimmed_start(kept);
    assert(trimmed(s) =~= s.subrange(from, from + trimmed(s).len()));
    assert forall|i: int| 0 <= i < from implies white_space(#[trigger] s[i]) by {
        assert(white_space(kept[i]));
    }
    if trimmed(s).len() > 0 {
        assert(trimmed(s).last() == kept.last());
    }
    from
}

/// Trimming the start takes off all the white space there and nothing else.
proof fn lemma_trimmed_start(s: Seq<char>) -> (from: int)
    ensures
        0 <= from <= s.len(),
        trimmed_start(s) == s.skip(from),
        forall|i: int| 0 <= i < from ==> white_space(#[trigger] s[i]),
        from < s.len() ==> !white_space(s[from]),
    decreases s.len(),
{
    if s.len() > 0 && white_space(s.first()) {
        let rest = s.drop_first();
        let from = lemma_trimmed_start(rest);
        assert(rest.skip(from) =~= s.skip(from + 1));
        assert forall|i: int| 0 <= i < from + 1 implies white_space(#[trigger] s[i]) by {
            if i > 0 {
                assert(white_space(rest[i - 1]));
            }
        }
        if from < rest.len() {
            assert(rest[from] == s[from + 1]);
        }
        from + 1
    } else {
        assert(s.skip(0) =~= s);
        0
    }
}

/// White space is the tab, the ends of lines and pages, the blank, and the blanks and
/// separators of other scripts and widths, and nothing else.
pub proof fn law_white_space(c: char)
    ensures
        white_space(c) <==> seq![
            '\u{9}',
            '\u{a}',
            '\u{b}',
            '\u{c}',
            '\u{d}',
            '\u{20}',
            '\u{85}',
            '\u{a0}',
            '\u{1680}',
            '\u{2000}',
            '\u{2001}',
            '\u{2002}',
            '\u{2003}',
            '\u{2004}',
            '\u{2005}',
            '\u{2006}',
            '\u{2007}',
            '\u{2008}',
            '\u{2009}',
            '\u{200a}',
            '\u{2028}',
            '\u{2029}',
            '\u{202f}',
            '\u{205f}',
            '\u{3000}',
        ].contains(c),
{
    let all = seq![
        '\u{9}',
        '\u{a}',
        '\u{b}',
        '\u{c}',
        '\u{d}',
        '\u{20}',
        '\u{85}',
        '\u{a0}',
        '\u{1680}',
        '\u{2000}',
        '\u{2001}',
        '\u{2002}',
        '\u{2003}',
        '\u{2004}',
        '\u{2005}',
        '\u{2006}',
        '\u{2007}',
        '\u{2008}',
        '\u{2009}',
        '\u{200a}',
        '\u{2028}',
        '\u{2029}',
        '\u{202f}',
        '\u{205f}',
        '\u{3000}',
    ];
    if white_space(c) {
        let n = c as u32;
        let k: int = if n <= 0xd {
            n - 0x9
        } else if n == 0x20 {
            5
        } else if n == 0x85 {
            6
        } else if n == 0xa0 {
            7
        } else if n == 0x1680 {
            8
        } else if n <= 0x200a {
            9 + (n - 0x2000)
        } else if n == 0x2028 {
            20
        } else if n == 0x2029 {
            21
        } else if n == 0x202f {
            22
        } else if n == 0x205f {
            23
        } else {
            24
        };
        assert(all[k] == c);
    }
}

/// The texts of some strings are their characters, each in its place.
pub proof fn law_texts(strings: Seq<String>)
    ensures
        texts(strings).len() == strings.len(),
        forall|i: int| 0 <= i < strings.len() ==> #[trigger] texts(strings)[i] == strings[i]@,
{
}

/// The lines of a text that goes on after the end of a line are those before and those after.
/// The line that it leaves open is that of what comes after.
pub proof fn law_lines_in_runs(start: Seq<char>, rest: Seq<char>)
    requires
        at_line_start(start),
    ensures
        lines_of(start + rest) == lines_of(start) + lines_of(rest),
        open_line(start + rest) == open_line(rest),
{
    if start.len() == 0 {
        assert(start + rest =~= rest);
        assert(lines_of(start) =~= Seq::<Seq<char>>::empty());
        assert(lines_of(start) + lines_of(rest) =~= lines_of(rest));
    } else {
        let head = start.drop_last();
        assert(head.push('\n') =~= start);
        lemma_pieces_after_break(head, rest);
        lemma_pieces_after_break(head, Seq::empty());
        lemma_pieces_nonempty(rest, '\n');
        assert(head.push('\n') + Seq::<char>::empty() =~= start);
        let before = pieces(head, '\n');
        let after = pieces(rest, '\n');
        assert(pieces(start, '\n') =~= before.push(Seq::<char>::empty()));
        assert(pieces(start + rest, '\n').last() == after.last());
        assert(lines_of(start + rest) =~= lines_of(start) + lines_of(rest));
    }
}

/// A text is what it has up to the end of a line, and then the line that it leaves open.
pub proof fn law_open_line_is_the_end(s: Seq<char>)
    ensures
        open_line(s).len() <= s.len(),
        s == s.take(s.len() - open_line(s).len()) + open_line(s),
        at_line_start(s.take(s.len() - open_line(s).len())),
    decreases s.len(),
{
    lemma_pieces_nonempty(s, '\n');
    if s.len() == 0 {
        assert(s =~= s.take(0) + open_line(s));
    } else {
        let before = s.drop_last();
        law_open_line_is_the_end(before);
        lemma_pieces_nonempty(before, '\n');
        let start = s.take(s.len() - open_line(s).len());
        if s.last() == '\n' {
            assert(start =~= s);
            assert(s =~= start + open_line(s));
        } else {
            assert(open_line(s) =~= open_line(before).push(s.last()));
            assert(start =~= before.take(before.len() - open_line(before).len()));
            assert(s =~= before.push(s.last()));
            assert(s =~= start + open_line(s));
        }
    }
}

/// The pieces put together again, with the separator between them.
pub open spec fn rejoined(parts: Seq<Seq<char>>, separator: char) -> Seq<char>
    decreases parts.len(),
{
    if parts.len() == 0 {
        Seq::empty()
    } else if parts.len() == 1 {
        parts[0]
    } else {
        rejoined(parts.drop_last(), separator).push(separator) + parts.last()
    }
}

/// Nothing is lost when a text is cut into pieces: put together again they are the text. And
/// no piece holds the separator.
pub proof fn law_pieces_rejoin(s: Seq<char>, separator: char)
    ensures
        rejoined(pieces(s, separator), separator) == s,
        forall|i: int|
            0 <= i < pieces(s, separator).len() ==> !(#[trigger] pieces(s, separator)[i]).contains(
                separator,
            ),
    decreases s.len(),
{
    lemma_pieces_nonempty(s, separator);
    if s.len() > 0 {
        let rest = s.drop_last();
        let before = pieces(rest, separator);
        let parts = pieces(s, separator);
        lemma_pieces_nonempty(rest, separator);
        law_pieces_rejoin(rest, separator);
        assert(s =~= rest.push(s.last()));
        if s.last() == separator {
            assert(parts.drop_last() =~= before);
            assert(rejoined(parts, separator) =~= rest.push(separator));
        } else {
            assert(parts.drop_last() =~= before.drop_last());
            let n = before.len() - 1;
            if n == 0 {
                assert(rejoined(parts, separator) =~= s);
            } else {
                assert(rejoined(parts, separator) =~= rejoined(before, separator).push(s.last()));
            }
            assert forall|i: int| 0 <= i < parts.len() implies !(#[trigger] parts[i]).contains(
                separator,
            ) by {
                if i < n {
                    assert(parts[i] == before[i]);
                } else {
                    assert(!before[n].contains(separator));
                    assert(parts[n] == before[n].push(s.last()));
                    if parts[n].contains(separator) {
                        let k = choose|k: int| 0 <= k < parts[n].len() && parts[n][k] == separator;
                        assert(before[n][k] == separator);
                    }
                }
            }
        }
    }
}

/// What trimming takes off the end of a text is white space, and what is left does not end
/// with any.
pub proof fn law_trimmed_end(s: Seq<char>)
    ensures
        trimmed_end(s).is_prefix_of(s),
        trimmed_end(s).len() > 0 ==> !white_space(trimmed_end(s).last()),
        forall|i: int| trimmed_end(s).len() <= i < s.len() ==> white_space(#[trigger] s[i]),
    decreases s.len(),
{
    if s.len() > 0 && white_space(s.last()) {
        law_trimmed_end(s.drop_last());
        let kept = trimmed_end(s);
        assert(kept.is_prefix_of(s.drop_last()));
        assert(s.subrange(0, kept.len() as int) =~= s.drop_last().subrange(0, kept.len() as int));
        assert forall|i: int| kept.len() <= i < s.len() implies white_space(#[trigger] s[i]) by {
            if i < s.len() - 1 {
                assert(s.drop_last()[i] == s[i]);
            }
        }
    } else {
        assert(s.subrange(0, s.len() as int) =~= s);
    }
}

}
