//! What holds of errors and of refusals.

use crate::error::{error_message, error_report, ProviderError};
use crate::response::{cut_is_clean, kept, too_long};
use crate::text::{decimal, parsed_u64};
use crate::text_laws::written_numbers_read_back;
use vstd::prelude::*;
use vstd::utf8::{encode_utf8, is_continuation_byte};

verus! {

/// Failures without particulars have their messages.
pub proof fn plain_errors_have_their_messages()
    ensures
        error_message(ProviderError::ApiKeyMissing) == "api_key not configured"@,
        error_message(ProviderError::LineBufferExceeded)
            == "SSE line buffer exceeded maximum size"@,
        error_message(ProviderError::NoModels) == "/v1/models returned no models"@,
{
}

/// The message about a catalogue's status gives the status back.
pub proof fn catalogue_errors_tell_the_status(status: u16)
    ensures
        ({
            let message = error_message(ProviderError::ModelsStatus(status));
            &&& message.len() > 27
            &&& message.take(27) == "/v1/models returned status "@
            &&& message.skip(27) == decimal(status as nat)
            &&& parsed_u64(message.skip(27)) == Some(status as u64)
        }),
{
    reveal_strlit("/v1/models returned status ");
    assert("/v1/models returned status "@.len() == 27);
    let message = error_message(ProviderError::ModelsStatus(status));
    written_numbers_read_back(status as u64);
    assert(message.take(27) == "/v1/models returned status "@);
    assert(message.skip(27) == decimal(status as nat));
}

/// The message about a refused request gives its status and its body back.
pub proof fn refusals_tell_status_and_body(status: u16, body: String)
    ensures
        ({
            let message = error_message(ProviderError::Api { status, body });
            let n = decimal(status as nat).len() as int;
            &&& message.len() == 11 + n + 3 + body@.len()
            &&& message.subrange(0, 11) == "API error ("@
            &&& message.subrange(11, 11 + n) == decimal(status as nat)
            &&& parsed_u64(message.subrange(11, 11 + n)) == Some(status as u64)
            &&& message.subrange(11 + n, 14 + n) == "): "@
            &&& message.subrange(14 + n, message.len() as int) == body@
        }),
{
    reveal_strlit("API error (");
    reveal_strlit("): ");
    assert("API error ("@.len() == 11 && "): "@.len() == 3);
    let message = error_message(ProviderError::Api { status, body });
    let n = decimal(status as nat).len() as int;
    written_numbers_read_back(status as u64);
    assert(message.subrange(0, 11) == "API error ("@);
    assert(message.subrange(11, 11 + n) == decimal(status as nat));
    assert(message.subrange(11 + n, 14 + n) == "): "@);
    assert(message.subrange(14 + n, message.len() as int) == body@);
}

/// The SDK's own failures are reported as the SDK words them, and all others by
/// their message behind `API logic error: `.
pub proof fn reports_tell_the_message(error: ProviderError)
    ensures
        match error {
            ProviderError::Sdk(text) => {
                &&& error_message(error) == text@
                &&& error_report(error) == text@
            },
            _ => {
                &&& error_report(error).len() == 17 + error_message(error).len()
                &&& error_report(error).take(17) == "API logic error: "@
                &&& error_report(error).skip(17) == error_message(error)
            },
        },
{
    reveal_strlit("API logic error: ");
    assert("API logic error: "@.len() == 17);
    if !(error is Sdk) {
        assert(error_report(error).take(17) == "API logic error: "@);
        assert(error_report(error).skip(17) == error_message(error));
    }
}

/// Of a refusal's body, the first 4096 bytes are kept, or all where there are no
/// more.
pub proof fn refusals_keep_all_up_to_the_limit(body: Seq<char>)
    ensures
        ({
            let bytes = encode_utf8(body);
            &&& too_long(body) <==> bytes.len() > 4096
            &&& bytes.len() <= 4096 ==> kept(body) == bytes
            &&& bytes.len() > 4096 ==> kept(body) == bytes.take(4096)
        }),
{
    if too_long(body) {
        assert(kept(body) == encode_utf8(body).take(4096));
    }
}

/// A body is cut cleanly where it is not cut at all, or where the first byte that is
/// cut off begins a character.
pub proof fn clean_cuts_stand_before_characters(body: Seq<char>)
    ensures
        cut_is_clean(body) <==> encode_utf8(body).len() <= 4096 || !is_continuation_byte(
            encode_utf8(body)[4096],
        ),
{
    vstd::utf8::encode_utf8_valid_utf8(body);
    if too_long(body) {
        vstd::utf8::is_char_boundary_iff_not_is_continuation_byte(encode_utf8(body), 4096);
    }
}

} // verus!
