//! The credentials of a client, as the header `Proxy-Authorization` carries them.
use crate::config::Config;
use crate::text::{byte_words, find_char, law_byte_words, lemma_first_of_joined, split_byte_words};
use base64::engine::general_purpose::STANDARD;
use base64::{DecodeError, Engine};
use std::str::Utf8Error;
use vstd::prelude::*;
use vstd::utf8::{
    decode_utf8, decode_utf8_encode_utf8, encode_utf8, encode_utf8_decode_utf8, encode_utf8_valid_utf8,
    valid_utf8,
};

verus! {

/// The error type of the `base64` crate's decoders.
#[verifier::external_type_specification]
#[verifier::external_body]
pub struct ExDecodeError(DecodeError);

/// The error type of the standard library's UTF-8 decoders.
#[verifier::external_type_specification]
#[verifier::external_body]
pub struct ExUtf8Error(Utf8Error);

/// What `base64::engine::general_purpose::STANDARD` decodes `input` to.
pub uninterp spec fn base64_decoded(input: Seq<u8>) -> Result<Seq<u8>, DecodeError>;

/// `Engine::decode` of `base64::engine::general_purpose::STANDARD`: the standard alphabet, with
/// padding. The bytes or the error that it gives depend on the input alone.
#[verifier::external_body]
pub(crate) fn base64_decode(input: &[u8]) -> (decoded: Result<Vec<u8>, DecodeError>)
    ensures
        decoded_view(decoded) == base64_decoded(input@),
{
    STANDARD.decode(input)
}

/// Decoded bytes as a sequence.
pub open spec fn decoded_view(decoded: Result<Vec<u8>, DecodeError>) -> Result<Seq<u8>, DecodeError> {
    match decoded {
        Ok(bytes) => Ok(bytes@),
        Err(cause) => Err(cause),
    }
}

/// The error that `std::str::from_utf8` reports for bytes that are not UTF-8.
pub uninterp spec fn utf8_error(bytes: Seq<u8>) -> Utf8Error;

/// `std::str::from_utf8`: the text whose UTF-8 form the bytes are, or, if they are not UTF-8, an
/// error, which depends on the bytes alone.
#[verifier::external_body]
pub(crate) fn text_from_utf8(bytes: &[u8]) -> (text: Result<&str, Utf8Error>)
    ensures
        match text {
            Ok(content) => valid_utf8(bytes@) && content@ == decode_utf8(bytes@),
            Err(cause) => !valid_utf8(bytes@) && cause == utf8_error(bytes@),
        },
{
    std::str::from_utf8(bytes)
}

/// Why a request carries no credentials that can be used.
#[derive(Debug)]
pub enum AuthorizationError {
    /// There is no header.
    Missing,
    /// The header holds something other than visible ASCII characters, spaces and tabs.
    NotText,
    /// The header does not consist of two words.
    NotTwoWords(Vec<u8>),
    /// The second word is not Base64.
    NotBase64(DecodeError),
    /// The second word encodes something other than UTF-8.
    NotUtf8(Utf8Error),
    /// The second word encodes a text without a colon.
    NoColon(String),
}

/// What a header says.
pub enum Claim {
    /// A name and a password.
    Credentials(Seq<char>, Seq<char>),
    Missing,
    NotText,
    NotTwoWords(Seq<u8>),
    NotBase64(DecodeError),
    NotUtf8(Utf8Error),
    NoColon(Seq<char>),
}

/// Whether the result of looking at a header is what the header says.
pub open spec fn states(result: Result<(String, String), AuthorizationError>, claim: Claim) -> bool {
    match (result, claim) {
        (Ok(pair), Claim::Credentials(username, password)) => pair.0@ == username && pair.1@ == password,
        (Err(AuthorizationError::Missing), Claim::Missing) => true,
        (Err(AuthorizationError::NotText), Claim::NotText) => true,
        (Err(AuthorizationError::NotTwoWords(line)), Claim::NotTwoWords(content)) => line@ == content,
        (Err(AuthorizationError::NotBase64(error)), Claim::NotBase64(cause)) => error == cause,
        (Err(AuthorizationError::NotUtf8(error)), Claim::NotUtf8(cause)) => error == cause,
        (Err(AuthorizationError::NoColon(text)), Claim::NoColon(content)) => text@ == content,
        _ => false,
    }
}

/// Whether every byte is a visible ASCII character, a space or a tab.
pub open spec fn visible(line: Seq<u8>) -> bool {
    forall|i: int| 0 <= i < line.len() ==> (32 <= #[trigger] line[i] < 127 || line[i] == 9)
}

/// A name up to the first colon and a password after it.
pub open spec fn text_claim(text: Seq<char>) -> Claim {
    match text.index_of_first(':') {
        Some(colon) => Claim::Credentials(text.take(colon), text.skip(colon + 1)),
        None => Claim::NoColon(text),
    }
}

/// What the decoded second word of a header says.
pub open spec fn decoded_claim(decoded: Result<Seq<u8>, DecodeError>) -> Claim {
    match decoded {
        Ok(bytes) => if valid_utf8(bytes) {
            text_claim(decode_utf8(bytes))
        } else {
            Claim::NotUtf8(utf8_error(bytes))
        },
        Err(cause) => Claim::NotBase64(cause),
    }
}

/// What a header says: a scheme, which may be any word, and the credentials in Base64.
pub open spec fn header_claim(header: Option<Seq<u8>>) -> Claim {
    match header {
        None => Claim::Missing,
        Some(line) => if !visible(line) {
            Claim::NotText
        } else if byte_words(line).len() != 2 {
            Claim::NotTwoWords(line)
        } else {
            decoded_claim(base64_decoded(byte_words(line)[1]))
        },
    }
}

/// The content of a header, if there is one.
pub open spec fn header_view(header: Option<&[u8]>) -> Option<Seq<u8>> {
    match header {
        Some(line) => Some(line@),
        None => None,
    }
}

/// Whether a configuration admits a client with this claim; a client without credentials that can
/// be used counts as `anonymous` with the password `anonymous`.
pub open spec fn claim_admitted(claim: Claim, config: Config) -> bool {
    match claim {
        Claim::Credentials(username, password) => config.admits(username, password),
        _ => config.admits("anonymous"@, "anonymous"@),
    }
}

/// Tells whether every byte is a visible ASCII character, a space or a tab.
fn is_visible(line: &[u8]) -> (answer: bool)
    ensures
        answer == visible(line@),
{
    let mut i: usize = 0;
    while i < line.len()
        invariant
            i <= line@.len(),
            forall|k: int| 0 <= k < i ==> (32 <= #[trigger] line@[k] < 127 || line@[k] == 9),
        decreases line@.len() - i,
    {
        if !(line[i] >= 32 && line[i] < 127 || line[i] == 9) {
            return false;
        }
        i += 1;
    }
    true
}

/// Takes the name and the password from the decoded second word of a header.
pub fn decoded_user_password(decoded: Result<Vec<u8>, DecodeError>) -> (result: Result<
    (String, String),
    AuthorizationError,
>)
    ensures
        states(result, decoded_claim(decoded_view(decoded))),
        match (decoded, result) {
            (Err(cause), Err(AuthorizationError::NotBase64(error))) => error == cause,
            (Ok(bytes), Err(AuthorizationError::NotUtf8(error))) => !valid_utf8(bytes@) && error
                == utf8_error(bytes@),
            (Ok(bytes), Err(AuthorizationError::NoColon(text))) => bytes@ == encode_utf8(text@)
                && !text@.contains(':'),
            (Ok(bytes), Ok(pair)) => bytes@ == encode_utf8(pair.0@ + seq![':'] + pair.1@)
                && !pair.0@.contains(':'),
            _ => false,
        },
{
    let bytes = match decoded {
        Ok(bytes) => bytes,
        Err(cause) => return Err(AuthorizationError::NotBase64(cause)),
    };
    let text = match text_from_utf8(&bytes) {
        Ok(text) => text,
        Err(cause) => return Err(AuthorizationError::NotUtf8(cause)),
    };
    proof {
        decode_utf8_encode_utf8(bytes@);
        text@.index_of_first_ensures(':');
    }
    match find_char(text, ':') {
        None => Err(AuthorizationError::NoColon(text.to_string())),
        Some(colon) => {
            let length = text.unicode_len();
            let username = text.substring_char(0, colon);
            let password = text.substring_char(colon + 1, length);
            proof {
                assert(username@ =~= text@.take(colon as int));
                assert(password@ =~= text@.skip(colon + 1));
                law_found_credentials(text@, username@, password@);
            }
            Ok((username.to_string(), password.to_string()))
        },
    }
}

/// Takes the name and the password from a header.
pub fn decode_user_password(header: Option<&[u8]>) -> (result: Result<(String, String), AuthorizationError>)
    ensures
        states(result, header_claim(header_view(header))),
        header is None ==> result matches Err(AuthorizationError::Missing),
        header matches Some(line) ==> states(result, header_claim(Some(line@))),
        result matches Ok(pair) ==> header matches Some(line) && byte_words(line@).len() == 2
            && base64_decoded(byte_words(line@)[1]) == Ok::<Seq<u8>, DecodeError>(
            encode_utf8(pair.0@ + seq![':'] + pair.1@),
        ) && !pair.0@.contains(':'),
{
    match header {
        None => Err(AuthorizationError::Missing),
        Some(line) => {
            if !is_visible(line) {
                return Err(AuthorizationError::NotText);
            }
            let tokens = split_byte_words(line);
            proof {
                assert(byte_words(line@).len() == tokens@.len());
            }
            if tokens.len() != 2 {
                return Err(AuthorizationError::NotTwoWords(vstd::slice::slice_to_vec(line)));
            }
            proof {
                assert(tokens@.map_values(|word: &[u8]| word@)[1] == tokens@[1]@);
            }
            decoded_user_password(base64_decode(tokens[1]))
        },
    }
}

/// Tells whether a client is admitted, given what its header was found to say.
pub fn check_credentials(decoded: Result<(String, String), AuthorizationError>, config: &Config) -> (admitted:
    bool)
    ensures
        admitted == (match decoded {
            Ok(pair) => config.admits(pair.0@, pair.1@),
            Err(_) => config.admits("anonymous"@, "anonymous"@),
        }),
        admitted == (config.users@.len() == 0 || exists|i: int|
            0 <= i < config.users@.len() && (match decoded {
                Ok(pair) => (#[trigger] config.users@[i]).username@ == pair.0@
                    && config.users@[i].password@ == pair.1@,
                Err(_) => config.users@[i].username@ == "anonymous"@ && config.users@[i].password@
                    == "anonymous"@,
            })),
{
    match decoded {
        Ok((username, password)) => config.authenticate_user(&username, &password),
        Err(_) => config.authenticate_user("anonymous", "anonymous"),
    }
}

/// Tells whether a client with this header may use the proxy.
pub fn check_authorization(header: Option<&[u8]>, config: &Config) -> (admitted: bool)
    ensures
        admitted == claim_admitted(header_claim(header_view(header)), *config),
        config.users@.len() == 0 ==> admitted,
        header matches Some(line) ==> admitted == claim_admitted(header_claim(Some(line@)), *config),
        header is None && config.users@.len() > 0 ==> admitted == exists|i: int|
            0 <= i < config.users@.len() && (#[trigger] config.users@[i]).username@ == "anonymous"@
                && config.users@[i].password@ == "anonymous"@,
{
    check_credentials(decode_user_password(header), config)
}

/// A name without a colon and any password are found again in the text that joins them by one.
pub proof fn law_joined_credentials(username: Seq<char>, password: Seq<char>)
    requires
        !username.contains(':'),
    ensures
        text_claim(username + seq![':'] + password) == Claim::Credentials(username, password),
{
    lemma_first_of_joined(username, ':', password);
}

/// A name and a password that are found in a text make up the text, and the name has no colon.
pub proof fn law_found_credentials(text: Seq<char>, username: Seq<char>, password: Seq<char>)
    requires
        text_claim(text) == Claim::Credentials(username, password),
    ensures
        text == username + seq![':'] + password,
        !username.contains(':'),
{
    text.index_of_first_ensures(':');
    let colon = text.index_of_first(':').unwrap();
    assert(text =~= text.take(colon) + seq![':'] + text.skip(colon + 1));
    if username.contains(':') {
        let i = choose|i: int| 0 <= i < username.len() && username[i] == ':';
        assert(text[i] == ':');
    }
}

/// The scheme, which is the first word of a header, makes no difference.
pub proof fn law_scheme_makes_no_difference(line: Seq<u8>, other: Seq<u8>)
    requires
        visible(line),
        visible(other),
        byte_words(line).len() == 2,
        byte_words(other).len() == 2,
        byte_words(line)[1] == byte_words(other)[1],
    ensures
        header_claim(Some(line)) == header_claim(Some(other)),
{
}

/// A client without credentials that can be used is admitted if and only if `anonymous` with the
/// password `anonymous` is.
pub proof fn law_without_credentials(header: Option<Seq<u8>>, config: Config)
    requires
        !(header_claim(header) is Credentials),
    ensures
        claim_admitted(header_claim(header), config) == config.admits("anonymous"@, "anonymous"@),
{
}

/// Without users every client is admitted, whatever its header.
pub proof fn law_open_proxy(header: Option<Seq<u8>>, config: Config)
    requires
        config.users@.len() == 0,
    ensures
        claim_admitted(header_claim(header), config),
{
}

/// Bytes that are the UTF-8 form of a name without a colon, a colon and any password give back
/// exactly that name and that password, however long they are.
pub proof fn law_decoded_round_trip(bytes: Seq<u8>, username: Seq<char>, password: Seq<char>)
    requires
        bytes == encode_utf8(username + seq![':'] + password),
        !username.contains(':'),
    ensures
        decoded_claim(Ok(bytes)) == Claim::Credentials(username, password),
{
    let text = username + seq![':'] + password;
    encode_utf8_valid_utf8(text);
    encode_utf8_decode_utf8(text);
    law_joined_credentials(username, password);
}

/// Conversely, bytes from which a name and a password are taken are the UTF-8 form of these with a
/// colon between them; and the name has no colon.
pub proof fn law_decoded_credentials(bytes: Seq<u8>, username: Seq<char>, password: Seq<char>)
    requires
        decoded_claim(Ok(bytes)) == Claim::Credentials(username, password),
    ensures
        bytes == encode_utf8(username + seq![':'] + password),
        !username.contains(':'),
{
    assert(valid_utf8(bytes));
    decode_utf8_encode_utf8(bytes);
    law_found_credentials(decode_utf8(bytes), username, password);
}

/// Bytes that hold no credentials: a text without a colon, what is not UTF-8, and what was not
/// decoded.
pub proof fn law_decoded_without_credentials(text: Seq<char>, bytes: Seq<u8>, cause: DecodeError)
    ensures
        !text.contains(':') ==> decoded_claim(Ok(encode_utf8(text))) == Claim::NoColon(text),
        !valid_utf8(bytes) ==> decoded_claim(Ok(bytes)) == Claim::NotUtf8(utf8_error(bytes)),
        decoded_claim(Err(cause)) == Claim::NotBase64(cause),
{
    encode_utf8_valid_utf8(text);
    encode_utf8_decode_utf8(text);
    text.index_of_first_ensures(':');
}

/// A header of two words, the second of which decodes to the UTF-8 form of a name without a colon,
/// a colon and any password, carries exactly that name and that password.
pub proof fn law_header_round_trip(
    line: Seq<u8>,
    decoded: Seq<u8>,
    username: Seq<char>,
    password: Seq<char>,
)
    requires
        forall|i: int| 0 <= i < line.len() ==> (32 <= #[trigger] line[i] < 127 || line[i] == 9),
        byte_words(line).len() == 2,
        base64_decoded(byte_words(line)[1]) == Ok::<Seq<u8>, DecodeError>(decoded),
        decoded == encode_utf8(username + seq![':'] + password),
        !username.contains(':'),
    ensures
        header_claim(Some(line)) == Claim::Credentials(username, password),
{
    law_decoded_round_trip(decoded, username, password);
}

/// The same of a header that is written as a scheme, a space and the encoded credentials.
pub proof fn law_written_header(
    scheme: Seq<u8>,
    word: Seq<u8>,
    decoded: Seq<u8>,
    username: Seq<char>,
    password: Seq<char>,
)
    requires
        scheme.len() > 0,
        word.len() > 0,
        forall|i: int| 0 <= i < scheme.len() ==> 32 < #[trigger] scheme[i] < 127,
        forall|i: int| 0 <= i < word.len() ==> 32 < #[trigger] word[i] < 127,
        base64_decoded(word) == Ok::<Seq<u8>, DecodeError>(decoded),
        decoded == encode_utf8(username + seq![':'] + password),
        !username.contains(':'),
    ensures
        header_claim(Some(scheme + seq![32u8] + word)) == Claim::Credentials(username, password),
{
    let line = scheme + seq![32u8] + word;
    law_byte_words(scheme, 32u8, word);
    law_byte_words(word, 32u8, Seq::empty());
    assert(byte_words(line) =~= seq![scheme, word]);
    law_header_round_trip(line, decoded, username, password);
}

/// Conversely, a header that carries a name and a password is a line of visible characters, spaces
/// and tabs in two words, and the second word decodes to the UTF-8 form of the two with a colon
/// between them.
pub proof fn law_header_credentials(header: Option<Seq<u8>>, username: Seq<char>, password: Seq<char>)
    requires
        header_claim(header) == Claim::Credentials(username, password),
    ensures
        header matches Some(line) && (forall|i: int|
            0 <= i < line.len() ==> (32 <= #[trigger] line[i] < 127 || line[i] == 9)) && byte_words(
            line,
        ).len() == 2 && base64_decoded(byte_words(line)[1]) == Ok::<Seq<u8>, DecodeError>(
            encode_utf8(username + seq![':'] + password),
        ),
        !username.contains(':'),
{
    let line = header.unwrap();
    let bytes = base64_decoded(byte_words(line)[1]).unwrap();
    law_decoded_credentials(bytes, username, password);
}

/// What is reported of the other headers: there is none, it holds another byte, it does not have
/// two words, or its second word cannot be decoded.
pub proof fn law_header_without_credentials(line: Seq<u8>)
    ensures
        header_claim(None) == Claim::Missing,
        (exists|i: int| 0 <= i < line.len() && !(32 <= #[trigger] line[i] < 127 || line[i] == 9))
            <==> header_claim(Some(line)) == Claim::NotText,
        (forall|i: int| 0 <= i < line.len() ==> (32 <= #[trigger] line[i] < 127 || line[i] == 9))
            && byte_words(line).len() != 2 ==> header_claim(Some(line)) == Claim::NotTwoWords(line),
        (forall|i: int| 0 <= i < line.len() ==> (32 <= #[trigger] line[i] < 127 || line[i] == 9))
            && byte_words(line).len() == 2 ==> match base64_decoded(byte_words(line)[1]) {
            Err(cause) => header_claim(Some(line)) == Claim::NotBase64(cause),
            Ok(bytes) => !valid_utf8(bytes) ==> header_claim(Some(line)) == Claim::NotUtf8(
                utf8_error(bytes),
            ),
        },
{
}

/// What a header says determines what is found in it, up to the way the texts are held.
pub proof fn law_result_tells_the_claim(result: Result<(String, String), AuthorizationError>, claim: Claim)
    requires
        states(result, claim),
    ensures
        claim == (match result {
            Ok(pair) => Claim::Credentials(pair.0@, pair.1@),
            Err(AuthorizationError::Missing) => Claim::Missing,
            Err(AuthorizationError::NotText) => Claim::NotText,
            Err(AuthorizationError::NotTwoWords(line)) => Claim::NotTwoWords(line@),
            Err(AuthorizationError::NotBase64(cause)) => Claim::NotBase64(cause),
            Err(AuthorizationError::NotUtf8(cause)) => Claim::NotUtf8(cause),
            Err(AuthorizationError::NoColon(text)) => Claim::NoColon(text@),
        }),
{
}

/// Where there are users, a client is admitted if and only if one of them has the name and the
/// password that its header carries, or, where it carries none, is `anonymous` with the password
/// `anonymous`.
pub proof fn law_admission(
    header: Option<Seq<u8>>,
    config: Config,
    username: Seq<char>,
    password: Seq<char>,
)
    requires
        config.users@.len() > 0,
        match header_claim(header) {
            Claim::Credentials(name, secret) => name == username && secret == password,
            _ => username == "anonymous"@ && password == "anonymous"@,
        },
    ensures
        claim_admitted(header_claim(header), config) <==> exists|i: int|
            0 <= i < config.users@.len() && (#[trigger] config.users@[i]).username@ == username
                && config.users@[i].password@ == password,
{
}

} // verus!
