//! The model files that the recognizers load, and the check that the files
//! at hand are the expected ones.

use vstd::prelude::*;

verus! {

/// Number of model files.
pub const MODEL_FILE_COUNT: usize = 6;

/// The MD5 digest of `data`.
pub uninterp spec fn md5_sum(data: Seq<u8>) -> Seq<u8>;

/// Calls `md5::Md5::digest`, the one-shot form of the hasher, on the whole
/// of `data`. Nothing is proved of it; the contract only claims that the
/// bytes it returns depend on the bytes of `data` alone, and gives them the
/// name `md5_sum`.
#[verifier::external_body]
fn md5_digest(data: &[u8]) -> (digest: Vec<u8>)
    ensures
        digest@ == md5_sum(data@),
{
    <md5::Md5 as md5::Digest>::digest(data).to_vec()
}

/// The hexadecimal digit of `n`, in lower case.
pub open spec fn hex_char(n: int) -> char {
    if n == 0 {
        '0'
    } else if n == 1 {
        '1'
    } else if n == 2 {
        '2'
    } else if n == 3 {
        '3'
    } else if n == 4 {
        '4'
    } else if n == 5 {
        '5'
    } else if n == 6 {
        '6'
    } else if n == 7 {
        '7'
    } else if n == 8 {
        '8'
    } else if n == 9 {
        '9'
    } else if n == 10 {
        'a'
    } else if n == 11 {
        'b'
    } else if n == 12 {
        'c'
    } else if n == 13 {
        'd'
    } else if n == 14 {
        'e'
    } else {
        'f'
    }
}

/// `bytes` in hexadecimal: two lower-case digits per byte, the high one
/// first.
pub open spec fn hex_lower(bytes: Seq<u8>) -> Seq<char> {
    Seq::new(
        2 * bytes.len(),
        |i: int|
            if i % 2 == 0 {
                hex_char(bytes[i / 2] as int / 16)
            } else {
                hex_char(bytes[i / 2] as int % 16)
            },
    )
}

/// The hexadecimal digit of `n`, in lower case.
pub fn hex_digit(n: u8) -> (c: char)
    requires
        n < 16,
    ensures
        c == hex_char(n as int),
{
    if n == 0 {
        '0'
    } else if n == 1 {
        '1'
    } else if n == 2 {
        '2'
    } else if n == 3 {
        '3'
    } else if n == 4 {
        '4'
    } else if n == 5 {
        '5'
    } else if n == 6 {
        '6'
    } else if n == 7 {
        '7'
    } else if n == 8 {
        '8'
    } else if n == 9 {
        '9'
    } else if n == 10 {
        'a'
    } else if n == 11 {
        'b'
    } else if n == 12 {
        'c'
    } else if n == 13 {
        'd'
    } else if n == 14 {
        'e'
    } else {
        'f'
    }
}

/// `bytes` in hexadecimal: two lower-case digits per byte, the high one
/// first.
pub fn to_hex(bytes: &[u8]) -> (hex: String)
    ensures
        hex@ == hex_lower(bytes@),
{
    let mut hex = String::new();
    let mut k: usize = 0;
    proof {
        assert(hex@ =~= hex_lower(bytes@.take(0)));
    }
    while k < bytes.len()
        invariant
            k <= bytes@.len(),
            hex@ == hex_lower(bytes@.take(k as int)),
        decreases bytes@.len() - k,
    {
        let byte = bytes[k];
        hex.push(hex_digit(byte / 16));
        hex.push(hex_digit(byte % 16));
        k = k + 1;
        proof {
            assert(hex@ =~= hex_lower(bytes@.take(k as int)));
        }
    }
    proof {
        assert(bytes@.take(k as int) =~= bytes@);
    }
    hex
}

/// Whether a file is the expected one. `content` is what the file holds,
/// or `None` where there is no such file. The file is the expected one
/// where it exists and the MD5 digest of its content, in hexadecimal, is
/// `expected_md5`.
pub fn check_md5(content: Option<&[u8]>, expected_md5: &str) -> (matches: bool)
    ensures
        matches == (content is Some && hex_lower(md5_sum(content->0@)) == expected_md5@),
{
    match content {
        None => false,
        Some(bytes) => {
            let digest = md5_digest(bytes);
            digest_matches(digest.as_slice(), expected_md5)
        },
    }
}

/// Whether `digest`, written in hexadecimal, is `expected_md5`.
pub fn digest_matches(digest: &[u8], expected_md5: &str) -> (matches: bool)
    ensures
        matches == (hex_lower(digest@) == expected_md5@),
{
    let md5_str = to_hex(digest);
    let expected = expected_md5.to_owned();
    md5_str == expected
}

/// The name of model file `i`.
pub open spec fn model_file_name(i: int) -> Seq<char> {
    if i == 0 {
        "paraformer-decoder.onnx"@
    } else if i == 1 {
        "paraformer-encoder.onnx"@
    } else if i == 2 {
        "paraformer-tokens.txt"@
    } else if i == 3 {
        "sense-voice.onnx"@
    } else if i == 4 {
        "sense-voice-tokens.txt"@
    } else {
        "vad.onnx"@
    }
}

/// The expected MD5 digest of model file `i`, in hexadecimal.
pub open spec fn model_file_md5(i: int) -> Seq<char> {
    if i == 0 {
        "a9778230fe187338c21b2cecba92ccea"@
    } else if i == 1 {
        "2016e5686aeadd194572e17c77aaae2f"@
    } else if i == 2 {
        "f51cac5badc6cf4a2fd25e0910f20cd5"@
    } else if i == 3 {
        "120cc8b9885544d3b89546dd66df03ab"@
    } else if i == 4 {
        "17cdd9d527315e28553153706d23c719"@
    } else {
        "8bb44d7f59905c08bad70840d0290c33"@
    }
}

/// Name and expected digest of model file `i`.
pub fn model_file(i: usize) -> (file: (&'static str, &'static str))
    requires
        i < MODEL_FILE_COUNT,
    ensures
        file.0@ == model_file_name(i as int),
        file.1@ == model_file_md5(i as int),
{
    if i == 0 {
        ("paraformer-decoder.onnx", "a9778230fe187338c21b2cecba92ccea")
    } else if i == 1 {
        ("paraformer-encoder.onnx", "2016e5686aeadd194572e17c77aaae2f")
    } else if i == 2 {
        ("paraformer-tokens.txt", "f51cac5badc6cf4a2fd25e0910f20cd5")
    } else if i == 3 {
        ("sense-voice.onnx", "120cc8b9885544d3b89546dd66df03ab")
    } else if i == 4 {
        ("sense-voice-tokens.txt", "17cdd9d527315e28553153706d23c719")
    } else {
        ("vad.onnx", "8bb44d7f59905c08bad70840d0290c33")
    }
}

/// Every model file exists and has its expected digest. `contents` holds
/// what each of the files holds, in the order of `model_file`.
pub open spec fn all_models_match(contents: Seq<Option<Vec<u8>>>) -> bool {
    &&& contents.len() == MODEL_FILE_COUNT
    &&& forall|i: int|
        0 <= i < MODEL_FILE_COUNT ==> (#[trigger] contents[i]) is Some && hex_lower(
            md5_sum(contents[i]->0@),
        ) == model_file_md5(i)
}

/// Whether the models are in place: there is one content for each model
/// file, in the order of `model_file`, none is missing, and each has the
/// digest expected of its file.
pub fn models_exists(contents: &Vec<Option<Vec<u8>>>) -> (exists: bool)
    ensures
        exists == all_models_match(contents@),
{
    if contents.len() != MODEL_FILE_COUNT {
        return false;
    }
    let mut i: usize = 0;
    while i < MODEL_FILE_COUNT
        invariant
            i <= MODEL_FILE_COUNT,
            contents@.len() == MODEL_FILE_COUNT,
            forall|k: int|
                0 <= k < i ==> (#[trigger] contents@[k]) is Some && hex_lower(
                    md5_sum(contents@[k]->0@),
                ) == model_file_md5(k),
        decreases MODEL_FILE_COUNT - i,
    {
        let (_, md5_value) = model_file(i);
        let success = match &contents[i] {
            None => check_md5(None, md5_value),
            Some(bytes) => check_md5(Some(bytes.as_slice()), md5_value),
        };
        if !success {
            return false;
        }
        i = i + 1;
    }
    true
}

} // verus!
