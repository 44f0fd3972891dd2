//! Text that comes as bytes in pieces: a character may begin in one piece and end in the next.
use vstd::prelude::*;
use vstd::utf8::*;

verus! {

/// The text of some bytes, with a replacement character for what is no UTF-8.
pub uninterp spec fn lossy_text(bytes: Seq<u8>) -> Seq<char>;

/// The text of some bytes: the characters that they encode, and where they are no UTF-8, a
/// text with replacement characters.
pub open spec fn text_of(bytes: Seq<u8>) -> Seq<char> {
    if valid_utf8(bytes) {
        decode_utf8(bytes)
    } else {
        lossy_text(bytes)
    }
}

/// Calls `String::from_utf8_lossy`: a function of the bytes alone, which decodes UTF-8 as it
/// stands.
#[verifier::external_body]
fn decode_lossy(bytes: &[u8]) -> (r: String)
    ensures
        r@ == lossy_text(bytes@),
        valid_utf8(bytes@) ==> r@ == decode_utf8(bytes@),
{
    String::from_utf8_lossy(bytes).into_owned()
}

/// The text of some bytes.
pub fn decode(bytes: &[u8]) -> (r: String)
    ensures
        r@ == text_of(bytes@),
{
    decode_lossy(bytes)
}

/// The number of bytes of the character that a byte begins; zero where it begins none.
pub open spec fn width(byte: u8) -> int {
    if is_leading_byte_width_1(byte) {
        1
    } else if is_leading_byte_width_2(byte) {
        2
    } else if is_leading_byte_width_3(byte) {
        3
    } else if is_leading_byte_width_4(byte) {
        4
    } else {
        0
    }
}

/// Whether the last `n` bytes begin a character and do not end it.
pub open spec fn breaks_off(bytes: Seq<u8>, n: int) -> bool {
    &&& 0 < n <= bytes.len()
    &&& n < width(bytes[bytes.len() - n])
    &&& forall|i: int|
        bytes.len() - n < i < bytes.len() ==> is_continuation_byte(#[trigger] bytes[i])
}

/// The number of bytes at the end that belong to a character which goes on in the next piece.
pub open spec fn undecided(bytes: Seq<u8>) -> int {
    if breaks_off(bytes, 1) {
        1
    } else if breaks_off(bytes, 2) {
        2
    } else if breaks_off(bytes, 3) {
        3
    } else {
        0
    }
}

/// The bytes up to the last character that is complete.
pub open spec fn decided_part(bytes: Seq<u8>) -> Seq<u8> {
    bytes.take(bytes.len() - undecided(bytes))
}

/// The bytes of the character that goes on in the next piece.
pub open spec fn open_part(bytes: Seq<u8>) -> Seq<u8> {
    bytes.skip(bytes.len() - undecided(bytes))
}

/// The number of bytes of the character that a byte begins; zero where it begins none.
fn width_of(byte: u8) -> (r: usize)
    ensures
        r == width(byte),
{
    if byte <= 0x7f {
        1
    } else if 0xc0 <= byte && byte <= 0xdf {
        2
    } else if 0xe0 <= byte && byte <= 0xef {
        3
    } else if 0xf0 <= byte && byte <= 0xf7 {
        4
    } else {
        0
    }
}

/// The number of bytes at the end that belong to a character which goes on in the next piece.
pub fn count_undecided(bytes: &Vec<u8>) -> (r: usize)
    ensures
        r == undecided(bytes@),
        r <= bytes@.len(),
{
    let len: usize = bytes.len();
    let mut n: usize = 1;
    while n <= 3 && n <= len
        invariant
            len == bytes@.len(),
            1 <= n <= 4,
            n <= len + 1,
            forall|k: int| 0 < k < n ==> !breaks_off(bytes@, k),
            forall|i: int| len - n < i < len ==> is_continuation_byte(#[trigger] bytes@[i]),
        decreases 4 - n,
    {
        let byte: u8 = bytes[len - n];
        if n < width_of(byte) {
            assert(breaks_off(bytes@, n as int));
            return n;
        }
        if byte < 0x80 || 0xbf < byte {
            assert forall|k: int| 0 < k <= 3 implies !breaks_off(bytes@, k) by {
                if k > n {
                    assert(!is_continuation_byte(bytes@[len - n]));
                }
            }
            return 0;
        }
        assert(!breaks_off(bytes@, n as int));
        n += 1;
    }
    0
}

/// In valid UTF-8, whatever is cut off at the end, what is decided ends with a character.
proof fn lemma_cut(all: Seq<u8>, m: int)
    requires
        valid_utf8(all),
        0 <= m <= all.len(),
    ensures
        is_char_boundary(all, m - undecided(all.take(m))),
        0 <= undecided(all.take(m)) <= m,
    decreases all.len(),
{
    let part = all.take(m);
    if all.len() > 0 {
        let w = length_of_first_scalar(all);
        assert(w == width(all[0]));
        if m < w {
            if m > 0 {
                assert(breaks_off(part, m));
                assert forall|n: int| 0 < n < m implies !breaks_off(part, n) by {
                    assert(is_continuation_byte(all[m - n]));
                }
                assert(undecided(part) == m);
            }
        } else {
            let rest = pop_first_scalar(all);
            lemma_cut(rest, m - w);
            let later = rest.take(m - w);
            assert forall|n: int| 0 < n <= 3 implies breaks_off(part, n) == breaks_off(
                later,
                n,
            ) by {
                if n <= m - w {
                    assert(part[m - n] == later[m - w - n]);
                    assert forall|i: int| m - n < i < m implies part[i] == later[i - w] by {}
                    if breaks_off(part, n) {
                        assert forall|i: int| m - w - n < i < m - w implies is_continuation_byte(
                            #[trigger] later[i],
                        ) by {
                            assert(is_continuation_byte(part[i + w]));
                        }
                    }
                    if breaks_off(later, n) {
                        assert forall|i: int| m - n < i < m implies is_continuation_byte(
                            #[trigger] part[i],
                        ) by {
                            assert(is_continuation_byte(later[i - w]));
                        }
                    }
                } else if n <= m {
                    if m - n > 0 {
                        assert(is_continuation_byte(all[m - n]));
                    }
                }
            }
            assert(undecided(part) == undecided(later));
        }
    }
}

/// The bytes of a character that goes on are no text by themselves.
proof fn lemma_open_part(bytes: Seq<u8>)
    requires
        valid_utf8(open_part(bytes)),
    ensures
        undecided(bytes) == 0,
{
    let tail = open_part(bytes);
    if undecided(bytes) > 0 {
        assert(tail[0] == bytes[bytes.len() - undecided(bytes)]);
        assert(valid_first_scalar(tail));
    }
}

/// Two texts are encoded one after the other.
proof fn lemma_encode_concat(a: Seq<char>, b: Seq<char>)
    ensures
        encode_utf8(a + b) == encode_utf8(a) + encode_utf8(b),
    decreases a.len(),
{
    if a.len() == 0 {
        assert(a + b =~= b);
        assert(encode_utf8(a) + encode_utf8(b) =~= encode_utf8(b));
    } else {
        lemma_encode_concat(a.drop_first(), b);
        assert((a + b).drop_first() =~= a.drop_first() + b);
        assert(encode_utf8(a + b) =~= encode_utf8(a) + encode_utf8(b));
    }
}

/// The bytes of some pieces, one after another.
pub open spec fn joined_bytes(pieces: Seq<Seq<u8>>) -> Seq<u8>
    decreases pieces.len(),
{
    if pieces.len() == 0 {
        Seq::empty()
    } else {
        joined_bytes(pieces.drop_last()) + pieces.last()
    }
}

/// The characters of some texts, one after another.
pub open spec fn joined_texts(texts: Seq<Seq<char>>) -> Seq<char>
    decreases texts.len(),
{
    if texts.len() == 0 {
        Seq::empty()
    } else {
        joined_texts(texts.drop_last()) + texts.last()
    }
}

/// The bytes that are still open after some pieces.
pub open spec fn open_after(pieces: Seq<Seq<u8>>) -> Seq<u8>
    decreases pieces.len(),
{
    if pieces.len() == 0 {
        Seq::empty()
    } else {
        open_part(open_after(pieces.drop_last()) + pieces.last())
    }
}

/// The text that each piece completes: that of the bytes that were open before it and of its
/// own, up to the last character that is complete.
pub open spec fn texts_of(pieces: Seq<Seq<u8>>) -> Seq<Seq<char>>
    decreases pieces.len(),
{
    if pieces.len() == 0 {
        Seq::empty()
    } else {
        texts_of(pieces.drop_last()).push(
            text_of(decided_part(open_after(pieces.drop_last()) + pieces.last())),
        )
    }
}

/// Where some bytes can be completed to UTF-8, what is decided of them is UTF-8, and the rest
/// can be completed so.
proof fn lemma_one_piece(data: Seq<u8>, rest: Seq<u8>)
    requires
        valid_utf8(data + rest),
    ensures
        encode_utf8(text_of(decided_part(data))) == decided_part(data),
        valid_utf8(open_part(data) + rest),
        decided_part(data) + open_part(data) == data,
{
    let all = data + rest;
    assert(all.take(data.len() as int) =~= data);
    lemma_cut(all, data.len() as int);
    let k = data.len() - undecided(data);
    valid_utf8_split(all, k);
    assert(all.subrange(0, k) =~= decided_part(data));
    assert(all.subrange(k, all.len() as int) =~= open_part(data) + rest);
    decode_utf8_encode_utf8(decided_part(data));
    assert(decided_part(data) + open_part(data) =~= data);
}

/// While what comes can still be completed to UTF-8, no byte is lost.
proof fn lemma_no_byte_lost(pieces: Seq<Seq<u8>>, rest: Seq<u8>)
    requires
        valid_utf8(joined_bytes(pieces) + rest),
    ensures
        encode_utf8(joined_texts(texts_of(pieces))) + open_after(pieces) == joined_bytes(pieces),
        valid_utf8(open_after(pieces) + rest),
    decreases pieces.len(),
{
    if pieces.len() == 0 {
        assert(open_after(pieces) + rest =~= joined_bytes(pieces) + rest);
        assert(encode_utf8(joined_texts(texts_of(pieces))) + open_after(pieces) =~= joined_bytes(
            pieces,
        ));
    } else {
        let before = pieces.drop_last();
        let last = pieces.last();
        assert(joined_bytes(before) + (last + rest) =~= joined_bytes(pieces) + rest);
        lemma_no_byte_lost(before, last + rest);
        let data = open_after(before) + last;
        assert(open_after(before) + (last + rest) =~= data + rest);
        lemma_one_piece(data, rest);
        let texts = texts_of(pieces);
        let earlier = joined_texts(texts_of(before));
        let text = text_of(decided_part(data));
        assert(texts.drop_last() =~= texts_of(before));
        assert(joined_texts(texts) == earlier + text);
        lemma_encode_concat(earlier, text);
        assert(encode_utf8(joined_texts(texts)) + open_part(data) =~= encode_utf8(earlier) + (
        decided_part(data) + open_part(data)));
        assert(encode_utf8(earlier) + (open_after(before) + last) =~= (encode_utf8(earlier)
            + open_after(before)) + last);
    }
}

/// Bytes that are UTF-8 as a whole come through as they are, however they are cut into
/// pieces, even within a character: the texts together are the characters that the bytes
/// together encode, and nothing is left open at the end.
pub proof fn law_bytes_come_through(pieces: Seq<Seq<u8>>)
    requires
        valid_utf8(joined_bytes(pieces)),
    ensures
        encode_utf8(joined_texts(texts_of(pieces))) == joined_bytes(pieces),
        joined_texts(texts_of(pieces)) == decode_utf8(joined_bytes(pieces)),
        open_after(pieces).len() == 0,
{
    let none = Seq::<u8>::empty();
    assert(joined_bytes(pieces) + none =~= joined_bytes(pieces));
    lemma_no_byte_lost(pieces, none);
    assert(open_after(pieces) + none =~= open_after(pieces));
    if pieces.len() > 0 {
        lemma_open_part(open_after(pieces.drop_last()) + pieces.last());
    }
    assert(encode_utf8(joined_texts(texts_of(pieces))) =~= joined_bytes(pieces));
    encode_utf8_decode_utf8(joined_texts(texts_of(pieces)));
}

/// One text comes of each piece.
pub proof fn law_one_text_for_each_piece(pieces: Seq<Seq<u8>>)
    ensures
        texts_of(pieces).len() == pieces.len(),
    decreases pieces.len(),
{
    if pieces.len() > 0 {
        law_one_text_for_each_piece(pieces.drop_last());
    }
}

/// A piece that is UTF-8 by itself, after which and before which nothing is open, comes
/// through as it is.
pub proof fn law_whole_piece(piece: Seq<u8>)
    requires
        valid_utf8(piece),
    ensures
        undecided(piece) == 0,
        text_of(decided_part(piece)) == decode_utf8(piece),
{
    let pieces = seq![piece];
    assert(pieces.drop_last() =~= Seq::<Seq<u8>>::empty());
    assert(joined_bytes(pieces.drop_last()) =~= Seq::<u8>::empty());
    assert(joined_bytes(pieces) =~= piece);
    assert(open_after(pieces.drop_last()) + piece =~= piece);
    law_bytes_come_through(pieces);
    assert(decided_part(piece) =~= piece);
}

/// The text of bytes that are UTF-8 encodes to just these bytes; of all others it is the text
/// with replacement characters.
pub proof fn law_text_has_the_bytes(bytes: Seq<u8>)
    ensures
        valid_utf8(bytes) ==> encode_utf8(text_of(bytes)) == bytes,
        !valid_utf8(bytes) ==> text_of(bytes) == lossy_text(bytes),
{
    if valid_utf8(bytes) {
        decode_utf8_encode_utf8(bytes);
    }
}

/// Whether some bytes begin a character and do not end it.
pub open spec fn begins_only(bytes: Seq<u8>) -> bool {
    &&& 1 <= bytes.len() <= 3
    &&& (is_leading_byte_width_2(bytes[0]) && bytes.len() < 2) || (is_leading_byte_width_3(bytes[0])
        && bytes.len() < 3) || (is_leading_byte_width_4(bytes[0]) && bytes.len() < 4)
    &&& forall|i: int| 1 <= i < bytes.len() ==> is_continuation_byte(#[trigger] bytes[i])
}

/// Nothing but a character that is not complete waits for the next piece, and no byte is lost
/// or moved: what is decided and what waits are the bytes together, what waits is empty or
/// begins a character without ending it, and where the last bytes do so, just they wait.
pub proof fn law_only_an_open_character_waits(bytes: Seq<u8>, n: int)
    requires
        0 <= n <= bytes.len(),
    ensures
        decided_part(bytes) + open_part(bytes) == bytes,
        open_part(bytes).len() > 0 ==> begins_only(open_part(bytes)),
        begins_only(bytes.skip(bytes.len() - n)) ==> open_part(bytes) == bytes.skip(
            bytes.len() - n,
        ),
{
    assert(decided_part(bytes) + open_part(bytes) =~= bytes);
    let u = undecided(bytes);
    if u > 0 {
        let tail = open_part(bytes);
        assert(tail[0] == bytes[bytes.len() - u]);
        assert forall|i: int| 1 <= i < tail.len() implies is_continuation_byte(
            #[trigger] tail[i],
        ) by {
            assert(is_continuation_byte(bytes[bytes.len() - u + i]));
        }
    }
    let last = bytes.skip(bytes.len() - n);
    if begins_only(last) {
        assert(last[0] == bytes[bytes.len() - n]);
        assert forall|i: int| bytes.len() - n < i < bytes.len() implies is_continuation_byte(
            #[trigger] bytes[i],
        ) by {
            assert(is_continuation_byte(last[i - (bytes.len() - n)]));
        }
        assert(breaks_off(bytes, n));
        assert forall|k: int| 0 < k <= 3 && breaks_off(bytes, k) implies k == n by {
            if k < n {
                assert(is_continuation_byte(bytes[bytes.len() - k]));
            } else if k > n {
                assert(is_continuation_byte(bytes[bytes.len() - n]));
            }
        }
    }
}

/// Of bytes that can go on to UTF-8, all characters that are complete are decided: what is
/// decided is the longest part from the start that is UTF-8 by itself.
pub proof fn law_longest_part_is_decided(bytes: Seq<u8>, rest: Seq<u8>, n: int)
    requires
        valid_utf8(bytes + rest),
        0 <= n <= bytes.len(),
        valid_utf8(bytes.take(n)),
    ensures
        valid_utf8(decided_part(bytes)),
        decided_part(bytes).len() >= n,
{
    let all = bytes + rest;
    assert(all.take(bytes.len() as int) =~= bytes);
    lemma_cut(all, bytes.len() as int);
    let k = bytes.len() - undecided(bytes);
    valid_utf8_split(all, k);
    assert(all.subrange(0, k) =~= decided_part(bytes));
    if n > k {
        let middle = bytes.subrange(k, n);
        let head = bytes.take(n);
        assert(head.subrange(0, k) =~= decided_part(bytes));
        assert(head.subrange(k, head.len() as int) =~= middle);
        if !valid_utf8(middle) {
            partial_valid_partial_invalid_utf8(head, k);
        }
        let tail = open_part(bytes);
        law_only_an_open_character_waits(bytes, 0);
        assert(middle =~= tail.take(n - k));
        assert(middle[0] == tail[0]);
        assert(valid_first_scalar(middle));
    }
}

/// Pieces of bytes, and texts, are joined as they stand, one after another.
pub proof fn law_joined_in_order(pieces: Seq<Seq<u8>>, texts: Seq<Seq<char>>)
    ensures
        joined_bytes(pieces) == pieces.flatten(),
        joined_texts(texts) == texts.flatten(),
    decreases pieces.len() + texts.len(),
{
    if pieces.len() > 0 {
        law_joined_in_order(pieces.drop_last(), texts);
        pieces.drop_last().lemma_flatten_push(pieces.last());
        assert(pieces.drop_last().push(pieces.last()) =~= pieces);
    } else {
        assert(pieces.flatten() =~= joined_bytes(pieces));
        if texts.len() > 0 {
            law_joined_in_order(pieces, texts.drop_last());
        }
    }
    if texts.len() > 0 {
        if pieces.len() > 0 {
            law_joined_in_order(pieces.drop_last(), texts);
        }
        texts.drop_last().lemma_flatten_push(texts.last());
        assert(texts.drop_last().push(texts.last()) =~= texts);
    } else {
        assert(texts.flatten() =~= joined_texts(texts));
    }
}

/// Each piece goes on with the bytes that the pieces before it left open.
pub proof fn law_pieces_go_on(pieces: Seq<Seq<u8>>, piece: Seq<u8>)
    ensures
        open_after(Seq::empty()) == Seq::<u8>::empty(),
        texts_of(Seq::empty()) == Seq::<Seq<char>>::empty(),
        open_after(pieces.push(piece)) == open_part(open_after(pieces) + piece),
        texts_of(pieces.push(piece)) == texts_of(pieces).push(
            text_of(decided_part(open_after(pieces) + piece)),
        ),
{
    assert(pieces.push(piece).drop_last() =~= pieces);
}

}
