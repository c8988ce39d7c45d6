//! The webxdc app the double serves: a page, the script it asks for, and
//! an icon, and the base64 the core hands a blob out in.

use vstd::prelude::*;

verus! {

/// The page of the app. It asks for its script the way a bundler writes
/// one: an absolute path, into a directory.
pub open spec fn app_page() -> Seq<u8> {
    seq![
            0x3c, 0x68, 0x74, 0x6d, 0x6c, 0x3e, 0x3c, 0x68, 0x65, 0x61, 0x64, 0x3e, 0x3c, 0x74, 0x69, 0x74,
            0x6c, 0x65, 0x3e, 0x43, 0x68, 0x65, 0x63, 0x6b, 0x65, 0x72, 0x73, 0x3c, 0x2f, 0x74, 0x69, 0x74,
            0x6c, 0x65, 0x3e, 0x20, 0x20, 0x20, 0x20, 0x20, 0x20, 0x20, 0x20, 0x20, 0x20, 0x20, 0x20, 0x20,
            0x20, 0x3c, 0x73, 0x63, 0x72, 0x69, 0x70, 0x74, 0x20, 0x74, 0x79, 0x70, 0x65, 0x3d, 0x22, 0x6d,
            0x6f, 0x64, 0x75, 0x6c, 0x65, 0x22, 0x20, 0x63, 0x72, 0x6f, 0x73, 0x73, 0x6f, 0x72, 0x69, 0x67,
            0x69, 0x6e, 0x20, 0x73, 0x72, 0x63, 0x3d, 0x22, 0x2f, 0x61, 0x73, 0x73, 0x65, 0x74, 0x73, 0x2f,
            0x61, 0x70, 0x70, 0x2e, 0x6a, 0x73, 0x22, 0x3e, 0x3c, 0x2f, 0x73, 0x63, 0x72, 0x69, 0x70, 0x74,
            0x3e, 0x20, 0x20, 0x20, 0x20, 0x20, 0x20, 0x20, 0x20, 0x20, 0x20, 0x20, 0x20, 0x20, 0x20, 0x3c,
            0x2f, 0x68, 0x65, 0x61, 0x64, 0x3e, 0x3c, 0x62, 0x6f, 0x64, 0x79, 0x3e, 0x62, 0x6f, 0x61, 0x72,
            0x64, 0x3c, 0x2f, 0x62, 0x6f, 0x64, 0x79, 0x3e, 0x3c, 0x2f, 0x68, 0x74, 0x6d, 0x6c, 0x3e,
        ]
}

/// The script the page asks for.
pub open spec fn app_script() -> Seq<u8> {
    seq![
            0x77, 0x69, 0x6e, 0x64, 0x6f, 0x77, 0x2e, 0x70, 0x6c, 0x61, 0x79, 0x69, 0x6e, 0x67, 0x20, 0x3d,
            0x20, 0x74, 0x72, 0x75, 0x65, 0x0a,
        ]
}

/// The app's icon.
pub open spec fn app_icon() -> Seq<u8> {
    seq![
            0x89, 0x50, 0x4e, 0x47, 0x0d, 0x0a, 0x1a, 0x0a, 0x20, 0x69, 0x63, 0x6f, 0x6e,
        ]
}

/// What the archive holds at `path`.
pub open spec fn archive_file(path: Seq<char>) -> Option<Seq<u8>> {
    if path == "index.html"@ {
        Some(app_page())
    } else if path == "assets/app.js"@ {
        Some(app_script())
    } else if path == "icon.png"@ {
        Some(app_icon())
    } else {
        None
    }
}

/// What the fake archive holds at `path`: a page, the script it asks for,
/// and an icon. Anything else is not in this webxdc.
pub fn webxdc_file(path: &str) -> (file: Option<Vec<u8>>)
    ensures
        match file {
            Some(bytes) => archive_file(path@) == Some(bytes@),
            None => archive_file(path@) is None,
        },
{
    if crate::text::same_text(path, "index.html") {
        let page = vec![
            0x3c, 0x68, 0x74, 0x6d, 0x6c, 0x3e, 0x3c, 0x68, 0x65, 0x61, 0x64, 0x3e,
            0x3c, 0x74, 0x69, 0x74, 0x6c, 0x65, 0x3e, 0x43, 0x68, 0x65, 0x63, 0x6b,
            0x65, 0x72, 0x73, 0x3c, 0x2f, 0x74, 0x69, 0x74, 0x6c, 0x65, 0x3e, 0x20,
            0x20, 0x20, 0x20, 0x20, 0x20, 0x20, 0x20, 0x20, 0x20, 0x20, 0x20, 0x20,
            0x20, 0x3c, 0x73, 0x63, 0x72, 0x69, 0x70, 0x74, 0x20, 0x74, 0x79, 0x70,
            0x65, 0x3d, 0x22, 0x6d, 0x6f, 0x64, 0x75, 0x6c, 0x65, 0x22, 0x20, 0x63,
            0x72, 0x6f, 0x73, 0x73, 0x6f, 0x72, 0x69, 0x67, 0x69, 0x6e, 0x20, 0x73,
            0x72, 0x63, 0x3d, 0x22, 0x2f, 0x61, 0x73, 0x73, 0x65, 0x74, 0x73, 0x2f,
            0x61, 0x70, 0x70, 0x2e, 0x6a, 0x73, 0x22, 0x3e, 0x3c, 0x2f, 0x73, 0x63,
            0x72, 0x69, 0x70, 0x74, 0x3e, 0x20, 0x20, 0x20, 0x20, 0x20, 0x20, 0x20,
            0x20, 0x20, 0x20, 0x20, 0x20, 0x20, 0x20, 0x3c, 0x2f, 0x68, 0x65, 0x61,
            0x64, 0x3e, 0x3c, 0x62, 0x6f, 0x64, 0x79, 0x3e, 0x62, 0x6f, 0x61, 0x72,
            0x64, 0x3c, 0x2f, 0x62, 0x6f, 0x64, 0x79, 0x3e, 0x3c, 0x2f, 0x68, 0x74,
            0x6d, 0x6c, 0x3e,
        ];
        assert(page@ =~= app_page());
        Some(page)
    } else if crate::text::same_text(path, "assets/app.js") {
        let script = vec![
            0x77, 0x69, 0x6e, 0x64, 0x6f, 0x77, 0x2e, 0x70, 0x6c, 0x61, 0x79, 0x69,
            0x6e, 0x67, 0x20, 0x3d, 0x20, 0x74, 0x72, 0x75, 0x65, 0x0a,
        ];
        assert(script@ =~= app_script());
        Some(script)
    } else if crate::text::same_text(path, "icon.png") {
        let icon = vec![
            0x89, 0x50, 0x4e, 0x47, 0x0d, 0x0a, 0x1a, 0x0a, 0x20, 0x69, 0x63, 0x6f,
            0x6e,
        ];
        assert(icon@ =~= app_icon());
        Some(icon)
    } else {
        None
    }
}

/// The alphabet of standard base64.
pub const BASE64_ALPHABET: &'static str = "ABCDEFGHIJKLMNOPQRSTUVWXYZabcdefghijklmnopqrstuvwxyz0123456789+/";

/// Up to three bytes as one number, the missing ones as zeros.
pub open spec fn packed(chunk: Seq<u8>) -> nat {
    let b0: nat = if chunk.len() > 0 { chunk[0] as nat } else { 0 };
    let b1: nat = if chunk.len() > 1 { chunk[1] as nat } else { 0 };
    let b2: nat = if chunk.len() > 2 { chunk[2] as nat } else { 0 };
    b0 * 65536 + b1 * 256 + b2
}

/// The six bits of `packed` that character `index` of a chunk stands for.
pub open spec fn sextet(packed: nat, index: nat) -> nat {
    if index == 0 {
        (packed / 262144) % 64
    } else if index == 1 {
        (packed / 4096) % 64
    } else if index == 2 {
        (packed / 64) % 64
    } else {
        packed % 64
    }
}

/// One chunk of up to three bytes, as one more character than it has
/// bytes: no padding.
pub open spec fn chunk_text(chunk: Seq<u8>) -> Seq<char> {
    Seq::new(
        (chunk.len() + 1) as nat,
        |i: int| BASE64_ALPHABET@[sextet(packed(chunk), i as nat) as int],
    )
}

/// `bytes` in standard base64 without padding.
pub open spec fn base64_text(bytes: Seq<u8>) -> Seq<char>
    decreases bytes.len(),
{
    if bytes.len() == 0 {
        Seq::empty()
    } else if bytes.len() <= 3 {
        chunk_text(bytes)
    } else {
        chunk_text(bytes.subrange(0, 3)) + base64_text(bytes.subrange(3, bytes.len() as int))
    }
}

proof fn lemma_base64_prefix(bytes: Seq<u8>, i: int)
    requires
        0 <= i,
        i % 3 == 0,
        i + 3 <= bytes.len() || i < bytes.len() <= i + 3,
    ensures
        base64_text(bytes.subrange(0, if i + 3 <= bytes.len() { i + 3 } else { bytes.len() as int }))
            == base64_text(bytes.subrange(0, i)) + chunk_text(
            bytes.subrange(i, if i + 3 <= bytes.len() { i + 3 } else { bytes.len() as int }),
        ),
    decreases i,
{
    let end = if i + 3 <= bytes.len() { i + 3 } else { bytes.len() as int };
    if i == 0 {
        assert(bytes.subrange(0, 0) =~= Seq::<u8>::empty());
        assert(base64_text(bytes.subrange(0, 0)) =~= Seq::<char>::empty());
        assert(bytes.subrange(0, end) =~= bytes.subrange(i, end));
        assert(Seq::<char>::empty() + chunk_text(bytes.subrange(i, end)) =~= chunk_text(bytes.subrange(i, end)));
    } else {
        let whole = bytes.subrange(0, end);
        assert(whole.len() > 3);
        assert(whole.subrange(0, 3) =~= bytes.subrange(0, 3));
        let rest = bytes.subrange(3, bytes.len() as int);
        assert(whole.subrange(3, whole.len() as int) =~= rest.subrange(0, end - 3));
        lemma_base64_prefix(rest, i - 3);
        assert(rest.subrange(i - 3, end - 3) =~= bytes.subrange(i, end));
        let head = bytes.subrange(0, i);
        if i == 3 {
            assert(head =~= bytes.subrange(0, 3));
            assert(rest.subrange(0, 0) =~= Seq::<u8>::empty());
            assert(base64_text(rest.subrange(0, 0)) =~= Seq::<char>::empty());
        } else {
            assert(head.subrange(0, 3) =~= bytes.subrange(0, 3));
            assert(head.subrange(3, head.len() as int) =~= rest.subrange(0, i - 3));
        }
    }
}

/// How long `n` bytes are in base64 without padding: four characters for
/// each whole three bytes, and one more than the bytes left over.
pub open spec fn base64_len(n: nat) -> nat {
    4 * (n / 3) + if n % 3 == 0 {
        0
    } else {
        n % 3 + 1
    }
}

/// Base64 without padding is four characters for every three bytes, and
/// one more than the bytes left over: nothing is padded out.
pub proof fn base64_length(bytes: Seq<u8>)
    ensures
        base64_text(bytes).len() == base64_len(bytes.len()),
    decreases bytes.len(),
{
    if bytes.len() > 3 {
        let rest = bytes.subrange(3, bytes.len() as int);
        base64_length(rest);
        assert(rest.len() == bytes.len() - 3);
        assert((bytes.len() - 3) as nat / 3 == bytes.len() / 3 - 1);
        assert((bytes.len() - 3) as nat % 3 == bytes.len() % 3);
    }
}

proof fn alphabet_has_no_padding()
    ensures
        BASE64_ALPHABET@.len() == 64,
        !BASE64_ALPHABET@.contains('='),
{
    reveal_strlit("ABCDEFGHIJKLMNOPQRSTUVWXYZabcdefghijklmnopqrstuvwxyz0123456789+/");
    assert forall|k: int| 0 <= k < 64 implies BASE64_ALPHABET@[k] != '=' by {}
}

/// Every character of the base64 of any bytes is one of the alphabet's,
/// so never the padding `=`.
pub proof fn base64_alphabet_only(bytes: Seq<u8>)
    ensures
        forall|i: int| 0 <= i < base64_text(bytes).len() ==> BASE64_ALPHABET@.contains(#[trigger] base64_text(bytes)[i]),
        forall|i: int| 0 <= i < base64_text(bytes).len() ==> #[trigger] base64_text(bytes)[i] != '=',
    decreases bytes.len(),
{
    alphabet_has_no_padding();
    if bytes.len() > 3 {
        let head = chunk_text(bytes.subrange(0, 3));
        let rest = bytes.subrange(3, bytes.len() as int);
        base64_alphabet_only(rest);
        assert forall|i: int| 0 <= i < base64_text(bytes).len() implies BASE64_ALPHABET@.contains(
            #[trigger] base64_text(bytes)[i],
        ) by {
            if i < head.len() {
                let k = sextet(packed(bytes.subrange(0, 3)), i as nat) as int;
                assert(BASE64_ALPHABET@[k] == base64_text(bytes)[i]);
            } else {
                assert(base64_text(bytes)[i] == base64_text(rest)[i - head.len()]);
            }
        }
    } else if bytes.len() > 0 {
        assert forall|i: int| 0 <= i < base64_text(bytes).len() implies BASE64_ALPHABET@.contains(
            #[trigger] base64_text(bytes)[i],
        ) by {
            let k = sextet(packed(bytes), i as nat) as int;
            assert(BASE64_ALPHABET@[k] == base64_text(bytes)[i]);
        }
    }
}

/// The six bits a base64 character stands for.
pub open spec fn sextet_value(c: char) -> int {
    if 'A' <= c && c <= 'Z' {
        c as int - 'A' as int
    } else if 'a' <= c && c <= 'z' {
        c as int - 'a' as int + 26
    } else if '0' <= c && c <= '9' {
        c as int - '0' as int + 52
    } else if c == '+' {
        62
    } else {
        63
    }
}

/// Up to four characters back into the bytes they carry: one fewer than
/// there are characters, as a chunk without padding has them.
pub open spec fn chunk_bytes(text: Seq<char>) -> Seq<u8> {
    let value = |i: int|
        if i < text.len() {
            sextet_value(text[i])
        } else {
            0
        };
    let packed = value(0) * 262144 + value(1) * 4096 + value(2) * 64 + value(3);
    Seq::new(
        (text.len() - 1) as nat,
        |i: int|
            (if i == 0 {
                (packed / 65536) % 256
            } else if i == 1 {
                (packed / 256) % 256
            } else {
                packed % 256
            }) as u8,
    )
}

/// Base64 without padding read back into bytes, four characters at a time.
pub open spec fn base64_bytes(text: Seq<char>) -> Seq<u8>
    decreases text.len(),
{
    if text.len() == 0 {
        Seq::empty()
    } else if text.len() <= 4 {
        chunk_bytes(text)
    } else {
        chunk_bytes(text.take(4)) + base64_bytes(text.skip(4))
    }
}

proof fn alphabet_values()
    ensures
        BASE64_ALPHABET@.len() == 64,
        forall|k: int| 0 <= k < 64 ==> sextet_value(#[trigger] BASE64_ALPHABET@[k]) == k,
{
    reveal_strlit("ABCDEFGHIJKLMNOPQRSTUVWXYZabcdefghijklmnopqrstuvwxyz0123456789+/");
    assert forall|k: int| 0 <= k < 64 implies sextet_value(#[trigger] BASE64_ALPHABET@[k]) == k by {}
}

proof fn repacked(b0: u32, b1: u32, b2: u32)
    by (bit_vector)
    requires
        b0 < 256,
        b1 < 256,
        b2 < 256,
    ensures
        ((b0 * 65536 + b1 * 256 + b2) / 262144) % 64 * 262144 + ((b0 * 65536 + b1 * 256 + b2) / 4096) % 64
            * 4096 + ((b0 * 65536 + b1 * 256 + b2) / 64) % 64 * 64 + (b0 * 65536 + b1 * 256 + b2) % 64
            == b0 * 65536 + b1 * 256 + b2,
        ((b0 * 65536 + b1 * 256 + b2) / 65536) % 256 == b0,
        ((b0 * 65536 + b1 * 256 + b2) / 256) % 256 == b1,
        (b0 * 65536 + b1 * 256 + b2) % 256 == b2,
        b2 == 0 ==> (b0 * 65536 + b1 * 256 + b2) % 64 == 0,
        b1 == 0 && b2 == 0 ==> (b0 * 65536 + b1 * 256 + b2) % 4096 == 0,
{
}

proof fn chunk_round_trip(chunk: Seq<u8>)
    requires
        1 <= chunk.len() <= 3,
    ensures
        chunk_bytes(chunk_text(chunk)) == chunk,
{
    alphabet_values();
    let text = chunk_text(chunk);
    let p = packed(chunk);
    let b0: u32 = chunk[0] as u32;
    let b1: u32 = if chunk.len() > 1 { chunk[1] as u32 } else { 0 };
    let b2: u32 = if chunk.len() > 2 { chunk[2] as u32 } else { 0 };
    repacked(b0, b1, b2);
    assert(p == b0 * 65536 + b1 * 256 + b2);
    let value = |i: int|
        if i < text.len() {
            sextet_value(text[i])
        } else {
            0
        };
    assert(value(0) == sextet(p, 0)) by {
        assert(text[0] == BASE64_ALPHABET@[sextet(p, 0) as int]);
    }
    assert(value(1) == sextet(p, 1)) by {
        assert(text[1] == BASE64_ALPHABET@[sextet(p, 1) as int]);
    }
    if chunk.len() > 1 {
        assert(value(2) == sextet(p, 2)) by {
            assert(text[2] == BASE64_ALPHABET@[sextet(p, 2) as int]);
        }
    }
    if chunk.len() > 2 {
        assert(value(3) == sextet(p, 3)) by {
            assert(text[3] == BASE64_ALPHABET@[sextet(p, 3) as int]);
        }
    }
    let q = value(0) * 262144 + value(1) * 4096 + value(2) * 64 + value(3);
    assert(q == p);
    assert(chunk_bytes(text) =~= chunk);
}

/// Reading the base64 of any bytes back gives the bytes again.
pub proof fn base64_round_trip(bytes: Seq<u8>)
    ensures
        base64_bytes(base64_text(bytes)) == bytes,
    decreases bytes.len(),
{
    if bytes.len() == 0 {
    } else if bytes.len() <= 3 {
        chunk_round_trip(bytes);
    } else {
        let head = bytes.subrange(0, 3);
        let rest = bytes.subrange(3, bytes.len() as int);
        let text = base64_text(bytes);
        base64_length(rest);
        chunk_round_trip(head);
        base64_round_trip(rest);
        assert(text.take(4) =~= chunk_text(head));
        assert(text.skip(4) =~= base64_text(rest));
        assert(head + rest =~= bytes);
    }
}

fn alphabet_char(v: u32) -> (c: &'static str)
    requires
        v < 64,
    ensures
        c@ == seq![BASE64_ALPHABET@[v as int]],
{
    proof {
        reveal_strlit("ABCDEFGHIJKLMNOPQRSTUVWXYZabcdefghijklmnopqrstuvwxyz0123456789+/");
    }
    let c = BASE64_ALPHABET.substring_char(v as usize, v as usize + 1);
    assert(c@ =~= seq![BASE64_ALPHABET@[v as int]]);
    c
}

/// Standard base64 without padding, which is what the core encodes a blob
/// as.
pub fn base64(bytes: &[u8]) -> (text: String)
    ensures
        text@ == base64_text(bytes@),
{
    let n = bytes.len();
    let mut out = String::new();
    let mut i: usize = 0;
    proof {
        assert(bytes@.subrange(0, 0) =~= Seq::<u8>::empty());
    }
    while i < n
        invariant
            n == bytes@.len(),
            i <= n,
            i % 3 == 0 || i == n,
            out@ == base64_text(bytes@.subrange(0, i as int)),
        decreases n - i,
    {
        let len: usize = if n - i >= 3 { 3 } else { n - i };
        let b0 = bytes[i] as u32;
        let b1: u32 = if len > 1 { bytes[i + 1] as u32 } else { 0 };
        let b2: u32 = if len > 2 { bytes[i + 2] as u32 } else { 0 };
        let packed_value = (b0 << 16) | (b1 << 8) | b2;
        let ghost chunk = bytes@.subrange(i as int, (i + len) as int);
        assert(packed_value == b0 * 65536 + b1 * 256 + b2) by (bit_vector)
            requires
                b0 < 256,
                b1 < 256,
                b2 < 256,
                packed_value == (b0 << 16) | (b1 << 8) | b2,
        ;
        assert(packed_value == packed(chunk));
        let ghost before = out@;
        let mut index: usize = 0;
        while index <= len
            invariant
                len <= 3,
                packed_value == packed(chunk),
                chunk.len() == len,
                index <= len + 1,
                out@ == before + chunk_text(chunk).subrange(0, index as int),
            decreases len + 1 - index,
        {
            let shift: u32 = 18 - 6 * (index as u32);
            let v = (packed_value >> shift) & 0x3f;
            assert(v == sextet(packed_value as nat, index as nat)) by {
                if index == 0 {
                    assert((packed_value >> 18u32) & 0x3f == (packed_value / 262144) % 64) by (bit_vector);
                } else if index == 1 {
                    assert((packed_value >> 12u32) & 0x3f == (packed_value / 4096) % 64) by (bit_vector);
                } else if index == 2 {
                    assert((packed_value >> 6u32) & 0x3f == (packed_value / 64) % 64) by (bit_vector);
                } else {
                    assert((packed_value >> 0u32) & 0x3f == packed_value % 64) by (bit_vector);
                }
            }
            assert(v < 64) by (bit_vector)
                requires
                    v == (packed_value >> shift) & 0x3f,
            ;
            out.append(alphabet_char(v));
            assert(chunk_text(chunk).subrange(0, index + 1) =~= chunk_text(chunk).subrange(0, index as int).push(
                chunk_text(chunk)[index as int],
            ));
            index = index + 1;
        }
        assert(chunk_text(chunk).subrange(0, (len + 1) as int) =~= chunk_text(chunk));
        proof {
            lemma_base64_prefix(bytes@, i as int);
        }
        i = i + len;
    }
    assert(bytes@.subrange(0, n as int) =~= bytes@);
    out
}

} // verus!
