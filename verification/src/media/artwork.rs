//! Covers as data URLs.

use crate::text::{append_str, chars_of, owned, stands_at, stands_here, string_of};
use base64::Engine;
use vstd::prelude::*;

verus! {

/// The largest cover that is read, in bytes.
pub const MAX_ARTWORK_BYTES: u32 = 8_388_608;

/// The standard base-64 symbol for a number below 64.
pub open spec fn symbol(d: int) -> char {
    "ABCDEFGHIJKLMNOPQRSTUVWXYZabcdefghijklmnopqrstuvwxyz0123456789+/"@[d]
}

/// Bytes in padded base 64: every three bytes are four symbols of six bits.
pub open spec fn base64(bytes: Seq<u8>) -> Seq<char>
    decreases bytes.len(),
{
    if bytes.len() == 0 {
        Seq::empty()
    } else if bytes.len() == 1 {
        seq![symbol(bytes[0] as int / 4), symbol(bytes[0] as int % 4 * 16), '=', '=']
    } else if bytes.len() == 2 {
        seq![
            symbol(bytes[0] as int / 4),
            symbol(bytes[0] as int % 4 * 16 + bytes[1] as int / 16),
            symbol(bytes[1] as int % 16 * 4),
            '=',
        ]
    } else {
        seq![
            symbol(bytes[0] as int / 4),
            symbol(bytes[0] as int % 4 * 16 + bytes[1] as int / 16),
            symbol(bytes[1] as int % 16 * 4 + bytes[2] as int / 64),
            symbol(bytes[2] as int % 64),
        ] + base64(bytes.skip(3))
    }
}

/// `base64`'s `Engine::encode` with `general_purpose::STANDARD`, the engine of
/// the standard alphabet with padding: it writes the bytes in base 64. Its
/// result would have to be longer than `usize` can tell for it to panic, which
/// no slice in memory brings about.
#[verifier::external_body]
fn encode_base64(bytes: &[u8]) -> (res: String)
    ensures
        res@ == base64(bytes@),
{
    base64::engine::general_purpose::STANDARD.encode(bytes)
}

/// Whether bytes begin with others.
pub open spec fn begins(bytes: Seq<u8>, front: Seq<u8>) -> bool {
    front.len() <= bytes.len() && bytes.take(front.len() as int) == front
}

/// The image type as the bytes themselves declare it.
pub open spec fn declared(bytes: Seq<u8>) -> Option<Seq<char>> {
    if begins(bytes, seq![0x89, 0x50, 0x4e, 0x47]) {
        Some("image/png"@)
    } else if begins(bytes, seq![0xff, 0xd8, 0xff]) {
        Some("image/jpeg"@)
    } else if begins(bytes, seq![0x47, 0x49, 0x46, 0x38]) {
        Some("image/gif"@)
    } else if begins(bytes, seq![0x42, 0x4d]) {
        Some("image/bmp"@)
    } else if begins(bytes, seq![0x52, 0x49, 0x46, 0x46]) && bytes.len() >= 12 && begins(
        bytes.skip(8),
        seq![0x57, 0x45, 0x42, 0x50],
    ) {
        Some("image/webp"@)
    } else {
        None
    }
}

/// The type that a cover is given: the one that its bytes declare, else the one
/// that is reported, if that is an image's.
pub open spec fn mime_of(bytes: Seq<u8>, reported: Seq<char>) -> Seq<char> {
    match declared(bytes) {
        Some(mime) => mime,
        None => if stands_at(reported, "image/"@, 0) {
            reported
        } else {
            "image/jpeg"@
        },
    }
}

/// A cover as a data URL.
pub open spec fn data_url(bytes: Seq<u8>, reported: Seq<char>) -> Seq<char> {
    "data:"@ + mime_of(bytes, reported) + ";base64,"@ + base64(bytes)
}

fn starts(bytes: &[u8], front: &[u8]) -> (res: bool)
    ensures
        res == begins(bytes@, front@),
{
    if front.len() > bytes.len() {
        return false;
    }
    for i in 0..front.len()
        invariant
            front@.len() <= bytes@.len(),
            bytes@.take(i as int) == front@.take(i as int),
    {
        if bytes[i] != front[i] {
            assert(bytes@.take(front@.len() as int)[i as int] != front@[i as int]);
            return false;
        }
        assert(bytes@.take(i + 1) =~= bytes@.take(i as int).push(bytes@[i as int]));
        assert(front@.take(i + 1) =~= front@.take(i as int).push(front@[i as int]));
    }
    assert(front@.take(front@.len() as int) =~= front@);
    true
}

/// The image type as the bytes themselves declare it.
pub fn sniff(bytes: &[u8]) -> (res: Option<String>)
    ensures
        crate::lyrics::text_view(res) == declared(bytes@),
{
    let png: [u8; 4] = [0x89, 0x50, 0x4e, 0x47];
    let jpeg: [u8; 3] = [0xff, 0xd8, 0xff];
    let gif: [u8; 4] = [0x47, 0x49, 0x46, 0x38];
    let bmp: [u8; 2] = [0x42, 0x4d];
    let riff: [u8; 4] = [0x52, 0x49, 0x46, 0x46];
    let webp: [u8; 4] = [0x57, 0x45, 0x42, 0x50];
    proof {
        assert(png@ =~= seq![0x89, 0x50, 0x4e, 0x47]);
        assert(jpeg@ =~= seq![0xff, 0xd8, 0xff]);
        assert(gif@ =~= seq![0x47, 0x49, 0x46, 0x38]);
        assert(bmp@ =~= seq![0x42, 0x4d]);
        assert(riff@ =~= seq![0x52, 0x49, 0x46, 0x46]);
        assert(webp@ =~= seq![0x57, 0x45, 0x42, 0x50]);
    }
    if starts(bytes, &png) {
        Some(owned("image/png"))
    } else if starts(bytes, &jpeg) {
        Some(owned("image/jpeg"))
    } else if starts(bytes, &gif) {
        Some(owned("image/gif"))
    } else if starts(bytes, &bmp) {
        Some(owned("image/bmp"))
    } else if starts(bytes, &riff) && bytes.len() >= 12 {
        let rest = vstd::slice::slice_subrange(bytes, 8, bytes.len());
        assert(rest@ =~= bytes@.skip(8));
        if starts(rest, &webp) {
            Some(owned("image/webp"))
        } else {
            None
        }
    } else {
        None
    }
}

/// How many bytes of a cover to read, by the size of its stream: none where it
/// is empty or too large.
pub fn artwork_size(size: u64) -> (res: Option<u32>)
    ensures
        res == (if 0 < size <= MAX_ARTWORK_BYTES {
            Some(size as u32)
        } else {
            None
        }),
{
    if size == 0 || size > MAX_ARTWORK_BYTES as u64 {
        None
    } else {
        Some(size as u32)
    }
}

/// A cover as a data URL; an empty one is none. The stream's own content type
/// is often empty or something generic like application/octet-stream, and a
/// data URL with the wrong type is simply not drawn, so the bytes decide.
pub fn artwork_url(bytes: &[u8], reported: &str) -> (res: Option<String>)
    ensures
        crate::lyrics::text_view(res) == (if bytes@.len() == 0 {
            None
        } else {
            Some(data_url(bytes@, reported@))
        }),
{
    if bytes.len() == 0 {
        return None;
    }
    let mime = match sniff(bytes) {
        Some(mime) => mime,
        None => {
            let text = chars_of(reported);
            let image = chars_of("image/");
            if stands_here(text.as_slice(), image.as_slice(), 0) {
                owned(reported)
            } else {
                owned("image/jpeg")
            }
        },
    };
    let mut url = chars_of("data:");
    append_str(&mut url, mime.as_str());
    append_str(&mut url, ";base64,");
    append_str(&mut url, encode_base64(bytes).as_str());
    Some(string_of(url.as_slice()))
}

/// Whatever a cover's stream reports, its data URL has the type of an image.
pub proof fn law_artwork_is_an_image(bytes: Seq<u8>, reported: Seq<char>)
    ensures
        stands_at(mime_of(bytes, reported), "image/"@, 0),
{
    reveal_strlit("image/");
    reveal_strlit("image/png");
    reveal_strlit("image/jpeg");
    reveal_strlit("image/gif");
    reveal_strlit("image/bmp");
    reveal_strlit("image/webp");
    let front = "image/"@;
    assert("image/png"@.subrange(0, 6) =~= front);
    assert("image/jpeg"@.subrange(0, 6) =~= front);
    assert("image/gif"@.subrange(0, 6) =~= front);
    assert("image/bmp"@.subrange(0, 6) =~= front);
    assert("image/webp"@.subrange(0, 6) =~= front);
}

/// What the bytes declare outweighs what is reported.
pub proof fn law_bytes_decide(bytes: Seq<u8>, reported: Seq<char>, other: Seq<char>)
    requires
        declared(bytes) is Some,
    ensures
        data_url(bytes, reported) == data_url(bytes, other),
{
}

/// Base 64 takes four symbols for every three bytes or part of them.
pub proof fn law_base64_length(bytes: Seq<u8>)
    ensures
        base64(bytes).len() == (bytes.len() + 2) / 3 * 4,
    decreases bytes.len(),
{
    if bytes.len() > 2 {
        law_base64_length(bytes.skip(3));
    }
}

/// A type is declared exactly by what the formats begin with.
pub proof fn law_formats_are_told_by_their_first_bytes(bytes: Seq<u8>)
    ensures
        declared(bytes) == Some("image/png"@) <==> bytes.len() >= 4 && bytes[0] == 0x89 && bytes[1]
            == 0x50 && bytes[2] == 0x4e && bytes[3] == 0x47,
        declared(bytes) == Some("image/jpeg"@) <==> bytes.len() >= 3 && bytes[0] == 0xff && bytes[1]
            == 0xd8 && bytes[2] == 0xff,
        declared(bytes) == Some("image/gif"@) <==> bytes.len() >= 4 && bytes[0] == 0x47 && bytes[1]
            == 0x49 && bytes[2] == 0x46 && bytes[3] == 0x38,
        declared(bytes) == Some("image/bmp"@) <==> bytes.len() >= 2 && bytes[0] == 0x42 && bytes[1]
            == 0x4d,
        declared(bytes) == Some("image/webp"@) <==> bytes.len() >= 12 && bytes[0] == 0x52
            && bytes[1] == 0x49 && bytes[2] == 0x46 && bytes[3] == 0x46 && bytes[8] == 0x57
            && bytes[9] == 0x45 && bytes[10] == 0x42 && bytes[11] == 0x50,
        declared(bytes) is None || declared(bytes) == Some("image/png"@) || declared(bytes) == Some(
            "image/jpeg"@,
        ) || declared(bytes) == Some("image/gif"@) || declared(bytes) == Some("image/bmp"@)
            || declared(bytes) == Some("image/webp"@),
{
    reveal_strlit("image/png");
    reveal_strlit("image/jpeg");
    reveal_strlit("image/gif");
    reveal_strlit("image/bmp");
    reveal_strlit("image/webp");
    assert("image/png"@[6] == 'p' && "image/jpeg"@[6] == 'j' && "image/gif"@[6] == 'g');
    assert("image/bmp"@[6] == 'b' && "image/webp"@[6] == 'w');
    let png: Seq<u8> = seq![0x89, 0x50, 0x4e, 0x47];
    let jpeg: Seq<u8> = seq![0xff, 0xd8, 0xff];
    let gif: Seq<u8> = seq![0x47, 0x49, 0x46, 0x38];
    let bmp: Seq<u8> = seq![0x42, 0x4d];
    let riff: Seq<u8> = seq![0x52, 0x49, 0x46, 0x46];
    let webp: Seq<u8> = seq![0x57, 0x45, 0x42, 0x50];
    lemma_begins(bytes, png);
    lemma_begins(bytes, jpeg);
    lemma_begins(bytes, gif);
    lemma_begins(bytes, bmp);
    lemma_begins(bytes, riff);
    if bytes.len() >= 12 {
        let rest = bytes.skip(8);
        lemma_begins(rest, webp);
        assert(rest[0] == bytes[8] && rest[1] == bytes[9] && rest[2] == bytes[10] && rest[3]
            == bytes[11]);
    }
}

proof fn lemma_begins(bytes: Seq<u8>, front: Seq<u8>)
    ensures
        begins(bytes, front) <==> front.len() <= bytes.len() && forall|i: int|
            0 <= i < front.len() ==> #[trigger] bytes[i] == front[i],
{
    if front.len() <= bytes.len() {
        let part = bytes.take(front.len() as int);
        assert forall|i: int| 0 <= i < front.len() implies #[trigger] bytes[i] == part[i] by {}
        if forall|i: int| 0 <= i < front.len() ==> #[trigger] bytes[i] == front[i] {
            assert forall|i: int| 0 <= i < front.len() implies part[i] == front[i] by {
                assert(bytes[i] == front[i]);
            }
            assert(part =~= front);
        }
    }
}

/// A cover is given the type that its bytes declare; else the one that is
/// reported, where that begins as an image's does; else JPEG. Its data URL holds
/// that type and the bytes, and nothing else.
pub proof fn law_reported_type_counts_where_it_is_an_image(
    bytes: Seq<u8>,
    kind: Seq<char>,
    reported: Seq<char>,
)
    ensures
        declared(bytes) matches Some(mime) ==> data_url(bytes, reported) == "data:"@ + mime
            + ";base64,"@ + base64(bytes),
        declared(bytes) is None ==> data_url(bytes, "image/"@ + kind) == "data:"@ + ("image/"@
            + kind) + ";base64,"@ + base64(bytes),
        declared(bytes) is None && !(reported.len() >= 6 && reported.take(6) == "image/"@)
            ==> data_url(bytes, reported) == "data:"@ + "image/jpeg"@ + ";base64,"@ + base64(bytes),
{
    reveal_strlit("image/");
    assert("image/"@.len() == 6);
    let whole = "image/"@ + kind;
    assert(whole.subrange(0, 6) =~= "image/"@);
    if reported.len() >= 6 {
        assert(reported.subrange(0, 6) =~= reported.take(6));
    }
}

} // verus!
