//! Limits, call ids and error classes of the Mistral API.
use vstd::prelude::*;
use vstd::string::StringSliceAdditionalSpecFns;
use vstd::utf8::encode_utf8;

use crate::provider::types::{
    CompletionRequest, ContentBlock, Message, MessageContent, ProviderError, ProviderErrorView,
};
use crate::text::{decimal, decimal_of, parse_unsigned, trim, trimmed, unsigned_of};

verus! {

/// The largest image, in bytes.
pub const MAX_IMAGE_BYTES: usize = 10485760;

/// The largest document, in bytes.
pub const MAX_DOCUMENT_BYTES: usize = 52428800;

/// How many images one request may hold.
pub const MAX_IMAGES_PER_REQUEST: usize = 8;

/// The milliseconds that a `retry-after` header asks for, where it gives whole seconds.
pub open spec fn retry_delay(header: Option<Seq<char>>) -> Option<u64> {
    match header {
        Some(text) => match parse_unsigned(trim(text)) {
            Some(secs) => Some(
                if secs * 1000 <= u64::MAX {
                    (secs * 1000) as u64
                } else {
                    u64::MAX
                },
            ),
            None => None,
        },
        None => None,
    }
}

/// The milliseconds that a `retry-after` header asks for.
pub fn retry_after_ms(header: Option<&str>) -> (r: Option<u64>)
    ensures
        r == retry_delay(header.deep_view()),
{
    match header {
        Some(value) => match unsigned_of(trimmed(value).as_str()) {
            Some(secs) => match secs.checked_mul(1000) {
                Some(ms) => Some(ms),
                None => Some(u64::MAX),
            },
            None => None,
        },
        None => None,
    }
}

/// The error that a failed response of the given status is reported as.
pub open spec fn status_error(
    status: u16,
    retry_after: Option<u64>,
    message: Seq<char>,
) -> ProviderErrorView {
    if status == 429 {
        ProviderErrorView::RateLimited {
            retry_after_ms: match retry_after {
                Some(ms) => ms,
                None => 5000,
            },
        }
    } else if status == 401 || status == 403 {
        ProviderErrorView::AuthenticationFailed(message)
    } else if status >= 500 {
        ProviderErrorView::Overloaded {
            retry_after_ms: match retry_after {
                Some(ms) => ms,
                None => 2000,
            },
        }
    } else {
        ProviderErrorView::Api { status, message }
    }
}

/// Classifies a failed response by its status.
pub fn http_error(status: u16, retry_after: Option<u64>, message: String) -> (r: ProviderError)
    ensures
        r.deep_view() == status_error(status, retry_after, message@),
{
    match status {
        429 => ProviderError::RateLimited {
            retry_after_ms: match retry_after {
                Some(ms) => ms,
                None => 5000,
            },
        },
        401 | 403 => ProviderError::AuthenticationFailed(message),
        s => if s >= 500 {
            ProviderError::Overloaded {
                retry_after_ms: match retry_after {
                    Some(ms) => ms,
                    None => 2000,
                },
            }
        } else {
            ProviderError::Api { status, message }
        },
    }
}

/// How many bytes base64 data of the given text stands for.
pub open spec fn decoded_len(data: Seq<char>) -> nat {
    encode_utf8(data).len() / 4 * 3
}

/// How many bytes base64 data stands for.
pub fn base64_len_bytes(data: &str) -> (r: usize)
    ensures
        r == decoded_len(data@),
{
    data.as_bytes().len() / 4 * 3
}

/// Counts the images in `blocks` on top of `images`, unless an image or a document is
/// too large: then the first such block decides the error.
pub open spec fn scan_blocks(blocks: Seq<ContentBlock>, images: nat) -> Result<
    nat,
    ProviderErrorView,
>
    decreases blocks.len(),
{
    if blocks.len() == 0 {
        Ok(images)
    } else {
        match blocks[0] {
            ContentBlock::Image { data, .. } => if decoded_len(data@) > MAX_IMAGE_BYTES {
                Err(
                    ProviderErrorView::Api {
                        status: 413,
                        message: "image exceeds Mistral's 10 MB limit"@,
                    },
                )
            } else {
                scan_blocks(blocks.skip(1), images + 1)
            },
            ContentBlock::File { data, .. } => if decoded_len(data@) > MAX_DOCUMENT_BYTES {
                Err(
                    ProviderErrorView::Api {
                        status: 413,
                        message: "document exceeds Mistral's 50 MB limit"@,
                    },
                )
            } else {
                scan_blocks(blocks.skip(1), images)
            },
            _ => scan_blocks(blocks.skip(1), images),
        }
    }
}

/// `scan_blocks` over the blocks of all messages.
pub open spec fn scan_messages(messages: Seq<Message>, images: nat) -> Result<
    nat,
    ProviderErrorView,
>
    decreases messages.len(),
{
    if messages.len() == 0 {
        Ok(images)
    } else {
        match messages[0].content {
            MessageContent::Blocks(blocks) => match scan_blocks(blocks@, images) {
                Ok(count) => scan_messages(messages.skip(1), count),
                Err(error) => Err(error),
            },
            MessageContent::Text(_) => scan_messages(messages.skip(1), images),
        }
    }
}

/// The complaint about too many images.
pub open spec fn too_many_images(count: nat) -> ProviderErrorView {
    ProviderErrorView::Api {
        status: 413,
        message: "request has "@ + decimal(count) + " images; Mistral allows 8"@,
    }
}

/// What the media check says of a conversation.
pub open spec fn media_verdict(messages: Seq<Message>) -> Result<(), ProviderErrorView> {
    match scan_messages(messages, 0) {
        Ok(count) => if count > MAX_IMAGES_PER_REQUEST {
            Err(too_many_images(count))
        } else {
            Ok(())
        },
        Err(error) => Err(error),
    }
}

fn count_images(blocks: &Vec<ContentBlock>, before: u128) -> (r: Result<u128, ProviderError>)
    requires
        before + blocks@.len() <= u128::MAX,
    ensures
        match r {
            Ok(count) => scan_blocks(blocks@, before as nat) == Ok::<nat, ProviderErrorView>(
                count as nat,
            ) && count <= before + blocks@.len(),
            Err(error) => scan_blocks(blocks@, before as nat) == Err::<nat, ProviderErrorView>(
                error.deep_view(),
            ),
        },
{
    let mut images: u128 = before;
    let mut i: usize = 0;
    assert(blocks@.skip(0) =~= blocks@);
    while i < blocks.len()
        invariant
            i <= blocks@.len(),
            before <= images <= before + i,
            before + blocks@.len() <= u128::MAX,
            scan_blocks(blocks@, before as nat) == scan_blocks(
                blocks@.skip(i as int),
                images as nat,
            ),
        decreases blocks@.len() - i,
    {
        assert(blocks@.skip(i as int).skip(1) =~= blocks@.skip(i + 1));
        match &blocks[i] {
            ContentBlock::Image { data, .. } => {
                if base64_len_bytes(data.as_str()) > MAX_IMAGE_BYTES {
                    return Err(
                        ProviderError::Api {
                            status: 413,
                            message: "image exceeds Mistral's 10 MB limit".to_owned(),
                        },
                    );
                }
                images = images + 1;
            },
            ContentBlock::File { data, .. } => {
                if base64_len_bytes(data.as_str()) > MAX_DOCUMENT_BYTES {
                    return Err(
                        ProviderError::Api {
                            status: 413,
                            message: "document exceeds Mistral's 50 MB limit".to_owned(),
                        },
                    );
                }
            },
            _ => {},
        }
        i = i + 1;
    }
    Ok(images)
}

/// Checks the sizes and the number of a request's images and documents.
pub fn validate_media(request: &CompletionRequest) -> (r: Result<(), ProviderError>)
    ensures
        match r {
            Ok(_) => media_verdict(request.messages@) == Ok::<(), ProviderErrorView>(()),
            Err(error) => media_verdict(request.messages@) == Err::<(), ProviderErrorView>(
                error.deep_view(),
            ),
        },
{
    let messages = &request.messages;
    let total: usize = messages.len();
    let mut images: u128 = 0;
    let mut i: usize = 0;
    assert(messages@.skip(0) =~= messages@);
    while i < total
        invariant
            messages == request.messages,
            total == messages@.len(),
            i <= total,
            images <= i * usize::MAX,
            scan_messages(messages@, 0) == scan_messages(messages@.skip(i as int), images as nat),
        decreases messages@.len() - i,
    {
        assert(messages@.skip(i as int).skip(1) =~= messages@.skip(i + 1));
        assert((i + 1) * usize::MAX == i * usize::MAX + usize::MAX) by (nonlinear_arith);
        assert((i + 1) * usize::MAX <= usize::MAX * usize::MAX) by (nonlinear_arith)
            requires
                i + 1 <= usize::MAX,
        ;
        assert(usize::MAX * usize::MAX <= u128::MAX) by (nonlinear_arith)
            requires
                usize::MAX <= 0xffff_ffff_ffff_ffff,
        ;
        match &messages[i].content {
            MessageContent::Blocks(blocks) => {
                let n: usize = blocks.len();
                assert(n == blocks@.len());
                match count_images(blocks, images) {
                    Ok(count) => {
                        images = count;
                    },
                    Err(error) => {
                        return Err(error);
                    },
                }
            },
            MessageContent::Text(_) => {},
        }
        i = i + 1;
    }
    if images > MAX_IMAGES_PER_REQUEST as u128 {
        let mut message = "request has ".to_owned();
        message.append(decimal_of(images).as_str());
        message.append(" images; Mistral allows 8");
        return Err(ProviderError::Api { status: 413, message });
    }
    Ok(())
}

/// Whether `b` is an ASCII letter or digit.
pub open spec fn is_alphanumeric(b: u8) -> bool {
    48 <= b <= 57 || 65 <= b <= 90 || 97 <= b <= 122
}

/// Whether a call id has the form that Mistral takes: nine ASCII letters and digits.
pub open spec fn is_wire_id(id: Seq<char>) -> bool {
    let bytes = encode_utf8(id);
    bytes.len() == 9 && forall|i: int| 0 <= i < 9 ==> is_alphanumeric(#[trigger] bytes[i])
}

/// The 64-bit FNV-1a hash of `bytes`.
pub open spec fn fnv1a(bytes: Seq<u8>) -> u64
    decreases bytes.len(),
{
    if bytes.len() == 0 {
        0xcbf29ce484222325
    } else {
        (fnv1a(bytes.drop_last()) ^ (bytes.last() as u64)).wrapping_mul(0x100000001b3)
    }
}

/// The letter or digit of value `d` in base 36: letters first.
pub open spec fn letter36(d: u64) -> char {
    if d < 26 {
        (97 + d) as char
    } else {
        (48 + (d - 26)) as char
    }
}

/// The lowest `n` base 36 digits of `h`, lowest first.
pub open spec fn low_digits36(h: u64, n: nat) -> Seq<char>
    decreases n,
{
    if n == 0 {
        Seq::empty()
    } else {
        seq![letter36(h % 36)] + low_digits36(h / 36, (n - 1) as nat)
    }
}

/// The id under which a call goes over the wire.
pub open spec fn wire_id(id: Seq<char>) -> Seq<char> {
    if is_wire_id(id) {
        id
    } else {
        low_digits36(fnv1a(encode_utf8(id)), 9)
    }
}

fn all_alphanumeric(bytes: &[u8]) -> (r: bool)
    ensures
        r == forall|i: int| 0 <= i < bytes@.len() ==> is_alphanumeric(#[trigger] bytes@[i]),
{
    let mut i: usize = 0;
    while i < bytes.len()
        invariant
            i <= bytes@.len(),
            forall|k: int| 0 <= k < i ==> is_alphanumeric(#[trigger] bytes@[k]),
        decreases bytes@.len() - i,
    {
        let b: u8 = bytes[i];
        if !((48 <= b && b <= 57) || (65 <= b && b <= 90) || (97 <= b && b <= 122)) {
            assert(!is_alphanumeric(bytes@[i as int]));
            return false;
        }
        i = i + 1;
    }
    true
}

/// The id under which a call goes over the wire: itself where it already has the form
/// that Mistral takes, else nine characters drawn from its hash.
pub fn wire_call_id(id: &str) -> (r: String)
    ensures
        r@ == wire_id(id@),
{
    let bytes = id.as_bytes();
    if bytes.len() == 9 && all_alphanumeric(bytes) {
        return id.to_owned();
    }
    assert(!is_wire_id(id@));
    let mut h: u64 = 0xcbf29ce484222325;
    let mut i: usize = 0;
    assert(bytes@.take(0) =~= Seq::empty());
    while i < bytes.len()
        invariant
            i <= bytes@.len(),
            h == fnv1a(bytes@.take(i as int)),
        decreases bytes@.len() - i,
    {
        assert(bytes@.take(i + 1).drop_last() =~= bytes@.take(i as int));
        h = (h ^ (bytes[i] as u64)).wrapping_mul(0x100000001b3);
        i = i + 1;
    }
    assert(bytes@.take(i as int) =~= bytes@);
    let ghost whole = low_digits36(h, 9);
    let mut out = String::new();
    let mut n: usize = 0;
    assert(out@ + low_digits36(h, 9) =~= whole);
    while n < 9
        invariant
            n <= 9,
            out@ + low_digits36(h, (9 - n) as nat) == whole,
        decreases 9 - n,
    {
        let d: u64 = h % 36;
        let c = if d < 26 {
            (97 + d as u8) as char
        } else {
            (48 + (d - 26) as u8) as char
        };
        assert(c == letter36(d));
        assert(out@ + (seq![c] + low_digits36(h / 36, (9 - n - 1) as nat)) =~= out@.push(c)
            + low_digits36(h / 36, (9 - n - 1) as nat));
        out.push(c);
        h = h / 36;
        n = n + 1;
    }
    assert(out@ + low_digits36(h, 0) =~= out@);
    out
}

proof fn low_digits_are_alphanumeric(h: u64, n: nat)
    ensures
        low_digits36(h, n).len() == n,
        forall|i: int|
            0 <= i < n ==> is_alphanumeric((#[trigger] low_digits36(h, n)[i]) as u8)
                && '0' <= low_digits36(h, n)[i] <= '\u{7f}',
    decreases n,
{
    if n > 0 {
        low_digits_are_alphanumeric(h / 36, (n - 1) as nat);
        let rest = low_digits36(h / 36, (n - 1) as nat);
        let all = low_digits36(h, n);
        assert(all =~= seq![letter36(h % 36)] + rest);
        assert forall|i: int| 0 <= i < n implies is_alphanumeric((#[trigger] all[i]) as u8)
            && '0' <= all[i] <= '\u{7f}' by {
            if i > 0 {
                assert(all[i] == rest[i - 1]);
            }
        }
    }
}

/// Whatever the call id, the id on the wire has the form that Mistral takes.
pub proof fn wire_ids_are_wire_ids(id: Seq<char>)
    ensures
        is_wire_id(wire_id(id)),
{
    if !is_wire_id(id) {
        let h = fnv1a(encode_utf8(id));
        low_digits_are_alphanumeric(h, 9);
        let s = low_digits36(h, 9);
        assert forall|i: int| 0 <= i < s.len() implies '\0' <= #[trigger] s[i] <= '\u{7f}' by {
            assert('0' <= low_digits36(h, 9)[i]);
        }
        vstd::utf8::is_ascii_chars_encode_utf8(s);
    }
}

/// An id that was made for the wire is left as it is, so a tool call and its result
/// keep one id however often they are sent.
pub proof fn wire_ids_are_stable(id: Seq<char>)
    ensures
        wire_id(wire_id(id)) == wire_id(id),
{
    wire_ids_are_wire_ids(id);
}

proof fn fnv1a_step(bytes: Seq<u8>, before: u64, next: u8, mixed: u64, after: u64, carry: int)
    requires
        fnv1a(bytes) == before,
        before ^ (next as u64) == mixed,
        mixed * 0x100000001b3 == carry * 0x1_0000_0000_0000_0000 + after,
    ensures
        fnv1a(bytes.push(next)) == after,
{
    let more = bytes.push(next);
    assert(more.drop_last() =~= bytes);
    assert(fnv1a(more) == mixed.wrapping_mul(0x100000001b3));
}

proof fn fnv1a_of_call()
    ensures
        fnv1a(seq![99u8, 97u8, 108u8, 108u8, 45u8]) == 0xf0d6c83a9d588c4c,
{
    let s0 = Seq::<u8>::empty();
    let s1 = s0.push(99);
    let s2 = s1.push(97);
    let s3 = s2.push(108);
    let s4 = s3.push(108);
    assert(fnv1a(s0) == 0xcbf29ce484222325);
    assert(0xcbf29ce484222325u64 ^ 99 == 0xcbf29ce484222346) by (bit_vector);
    fnv1a_step(s0, 0xcbf29ce484222325, 99, 0xcbf29ce484222346, 0xaf63de4c8601eff2, 0xcbf29ce5de);
    assert(0xaf63de4c8601eff2u64 ^ 97 == 0xaf63de4c8601ef93) by (bit_vector);
    fnv1a_step(s1, 0xaf63de4c8601eff2, 97, 0xaf63de4c8601ef93, 0x8a24f07b54a16c9, 0xaf63de4db0);
    assert(0x8a24f07b54a16c9u64 ^ 108 == 0x8a24f07b54a16a5) by (bit_vector);
    fnv1a_step(s2, 0x8a24f07b54a16c9, 108, 0x8a24f07b54a16a5, 0xf5e2ef190ce47a5f, 0x8a24f07c3);
    assert(0xf5e2ef190ce47a5fu64 ^ 108 == 0xf5e2ef190ce47a33) by (bit_vector);
    fnv1a_step(s3, 0xf5e2ef190ce47a5f, 108, 0xf5e2ef190ce47a33, 0xb5167a90e83ba4a9, 0xf5e2ef1aae);
    assert(0xb5167a90e83ba4a9u64 ^ 45 == 0xb5167a90e83ba484) by (bit_vector);
    fnv1a_step(s4, 0xb5167a90e83ba4a9, 45, 0xb5167a90e83ba484, 0xf0d6c83a9d588c4c, 0xb5167a921b);
    assert(s4.push(45) =~= seq![99u8, 97u8, 108u8, 108u8, 45u8]);
}

proof fn bytes_of_call(digit: char)
    requires
        '0' <= digit <= '9',
    ensures
        encode_utf8("call-"@.push(digit)) == seq![99u8, 97u8, 108u8, 108u8, 45u8].push(digit as u8),
{
    reveal_strlit("call-");
    let s = "call-"@.push(digit);
    vstd::utf8::is_ascii_chars_encode_utf8(s);
    assert(encode_utf8(s) =~= seq![99u8, 97u8, 108u8, 108u8, 45u8].push(digit as u8));
}

/// The calls `call-1` and `call-2` go over the wire under different ids.
pub proof fn first_calls_get_different_wire_ids()
    ensures
        wire_id("call-1"@) != wire_id("call-2"@),
{
    let front = seq![99u8, 97u8, 108u8, 108u8, 45u8];
    reveal_strlit("call-");
    reveal_strlit("call-1");
    reveal_strlit("call-2");
    assert("call-1"@ =~= "call-"@.push('1'));
    assert("call-2"@ =~= "call-"@.push('2'));
    bytes_of_call('1');
    bytes_of_call('2');
    fnv1a_of_call();
    assert(0xf0d6c83a9d588c4cu64 ^ 49 == 0xf0d6c83a9d588c7d) by (bit_vector);
    fnv1a_step(front, 0xf0d6c83a9d588c4c, 49, 0xf0d6c83a9d588c7d, 0x9582b8995d76b867, 0xf0d6c83c36);
    assert(0xf0d6c83a9d588c4cu64 ^ 50 == 0xf0d6c83a9d588c7e) by (bit_vector);
    fnv1a_step(front, 0xf0d6c83a9d588c4c, 50, 0xf0d6c83a9d588c7e, 0x9582b9995d76ba1a, 0xf0d6c83c36);
    assert(low_digits36(0x9582b8995d76b867, 9)[0] == letter36(19));
    assert(low_digits36(0x9582b9995d76ba1a, 9)[0] == letter36(2));
}

} // verus!
