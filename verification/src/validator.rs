//! The validator: hands a merged shader to the WGSL front end and to the
//! module validator of `naga`, and reports what either of them rejects.

use vstd::prelude::*;
use vstd::string::StringExecFns;

verus! {

/// `naga::Module`, a parsed shader. Nothing is known of what is inside.
#[verifier::external_type_specification]
#[verifier::external_body]
pub struct ExModule(naga::Module);

/// `naga::front::wgsl::ParseError`, the error of the front end. Nothing is
/// known of what is inside.
#[verifier::external_type_specification]
#[verifier::external_body]
pub struct ExParseError(naga::front::wgsl::ParseError);

/// `naga::valid::ModuleInfo`, what the validator hands out for a valid
/// module. Nothing is known of what is inside.
#[verifier::external_type_specification]
#[verifier::external_body]
pub struct ExModuleInfo(naga::valid::ModuleInfo);

/// `naga::valid::ValidationError`, the error of the validator. Nothing is
/// known of what is inside.
#[verifier::external_type_specification]
#[verifier::external_body]
pub struct ExValidationError(naga::valid::ValidationError);

/// `naga::WithSpan`, an error together with places in the source. Nothing
/// is known of what is inside.
#[verifier::external_type_specification]
#[verifier::external_body]
#[verifier::reject_recursive_types(E)]
pub struct ExWithSpan<E>(naga::WithSpan<E>);

/// What `naga::front::wgsl::parse_str` makes of `source`.
pub uninterp spec fn front_end_outcome(source: Seq<char>) -> Result<
    naga::Module,
    naga::front::wgsl::ParseError,
>;

/// The message of a front end error, as `naga::front::wgsl::ParseError::message`
/// gives it.
pub uninterp spec fn front_end_message(error: naga::front::wgsl::ParseError) -> Seq<char>;

/// What `naga::valid::Validator::validate` makes of `module`, for a new
/// validator with the validation flags and the capabilities whose bits are
/// set in `flags` and in `capabilities`.
pub uninterp spec fn validation_outcome(module: naga::Module, flags: u8, capabilities: u64) -> Result<
    naga::valid::ModuleInfo,
    naga::WithSpan<naga::valid::ValidationError>,
>;

/// The text that a validation error displays as.
pub uninterp spec fn validation_message(
    error: naga::WithSpan<naga::valid::ValidationError>,
) -> Seq<char>;

/// Calls `naga::front::wgsl::parse_str`. Nothing is proved of the result:
/// the contract only gives it the name `front_end_outcome`, that is, claims
/// that the front end makes the same of the same text every time. The front
/// end bounds its own recursion and reports too deep a nesting as an error;
/// on a small stack a deeply nested shader may still run out of stack
/// before that bound is reached.
#[verifier::external_body]
fn parse_wgsl(source: &str) -> (parsed: Result<naga::Module, naga::front::wgsl::ParseError>)
    ensures
        parsed == front_end_outcome(source@),
{
    naga::front::wgsl::parse_str(source)
}

/// Calls `naga::front::wgsl::ParseError::message`, which hands out the
/// message that the error also displays as. The contract only names it.
#[verifier::external_body]
fn message_of_parse_error(error: &naga::front::wgsl::ParseError) -> (message: String)
    ensures
        message@ == front_end_message(*error),
{
    error.message().to_owned()
}

/// Calls `naga::valid::Validator::validate` on a validator that
/// `naga::valid::Validator::new` made for the validation flags and the
/// capabilities whose bits are set in `flags` and in `capabilities`; bits
/// that stand for no flag or capability are dropped. Nothing is proved of
/// the result: the contract only gives it the name `validation_outcome`,
/// that is, claims that such a validator makes the same of the same module
/// every time.
#[verifier::external_body]
fn validate_module(module: &naga::Module, flags: u8, capabilities: u64) -> (checked: Result<
    naga::valid::ModuleInfo,
    naga::WithSpan<naga::valid::ValidationError>,
>)
    ensures
        checked == validation_outcome(*module, flags, capabilities),
{
    naga::valid::Validator::new(
        naga::valid::ValidationFlags::from_bits_truncate(flags),
        naga::valid::Capabilities::from_bits_truncate(capabilities),
    ).validate(module)
}

/// Formats a validation error by its `Display`, which for
/// `naga::WithSpan` is that of the error inside. The contract only names
/// the text.
#[verifier::external_body]
fn message_of_validation_error(error: &naga::WithSpan<naga::valid::ValidationError>) -> (message:
    String)
    ensures
        message@ == validation_message(*error),
{
    format!("{}", error)
}

/// The bit set of validation flags in which every bit is set: the validator
/// checks all it can check.
pub const EVERY_VALIDATION_FLAG: u8 = 0xff;

/// The bit set of capabilities in which every bit is set: the validator
/// allows whatever some hardware may offer.
pub const EVERY_CAPABILITY: u64 = 0xffff_ffff_ffff_ffff;

/// What is wrong with the shader `source`: the message of the front end
/// where it does not parse, else the message of the validator, run with
/// every validation flag and every capability, where the module is not
/// valid, else nothing.
pub open spec fn shader_fault(source: Seq<char>) -> Option<Seq<char>> {
    match front_end_outcome(source) {
        Err(error) => Some(front_end_message(error)),
        Ok(module) => match validation_outcome(module, EVERY_VALIDATION_FLAG, EVERY_CAPABILITY) {
            Err(error) => Some(validation_message(error)),
            Ok(_) => None,
        },
    }
}

/// A rejected shader: the path it was asked for under and what the front
/// end or the validator said.
#[derive(Debug, PartialEq, Eq)]
pub struct Diagnostic {
    pub path: String,
    pub message: String,
}

impl Diagnostic {
    /// The diagnostic on one line: the path, a colon, a space, the message.
    pub fn render(&self) -> (line: String)
        ensures
            line@ == self.path@ + seq![':', ' '] + self.message@,
    {
        proof {
            reveal_strlit(": ");
        }
        let mut line = self.path.clone();
        line.append(": ");
        line.append(self.message.as_str());
        line
    }
}

/// Parses `source` and validates the module, with every validation flag and
/// every capability switched on. Hands back the message of the first of the
/// two that rejects the shader.
pub fn find_fault(source: &str) -> (fault: Option<String>)
    ensures
        match fault {
            Some(message) => shader_fault(source@) == Some(message@),
            None => shader_fault(source@) is None,
        },
{
    match parse_wgsl(source) {
        Err(error) => Some(message_of_parse_error(&error)),
        Ok(module) => match validate_module(&module, EVERY_VALIDATION_FLAG, EVERY_CAPABILITY) {
            Err(error) => Some(message_of_validation_error(&error)),
            Ok(_) => None,
        },
    }
}

/// The result for a shader asked for under `file_path`, whose merged text is
/// `merged_text` and of which the front end and the validator said `fault`:
/// the text itself where they said nothing, else a diagnostic with the path
/// and what they said.
pub fn verdict(file_path: &str, merged_text: String, fault: Option<String>) -> (checked: Result<
    String,
    Diagnostic,
>)
    ensures
        match fault {
            None => checked == Ok::<String, Diagnostic>(merged_text),
            Some(message) => {
                &&& checked matches Err(diagnostic)
                &&& diagnostic.path@ == file_path@
                &&& diagnostic.message == message
            },
        },
{
    match fault {
        None => Ok(merged_text),
        Some(message) => Err(Diagnostic { path: file_path.to_owned(), message }),
    }
}

/// Accepts `merged_text`, and hands it back unchanged, where it parses and
/// the module is valid; else reports the fault under `file_path`.
pub fn validate(file_path: &str, merged_text: String) -> (checked: Result<String, Diagnostic>)
    ensures
        match shader_fault(merged_text@) {
            None => checked == Ok::<String, Diagnostic>(merged_text),
            Some(message) => {
                &&& checked matches Err(diagnostic)
                &&& diagnostic.path@ == file_path@
                &&& diagnostic.message@ == message
            },
        },
{
    let fault = find_fault(merged_text.as_str());
    verdict(file_path, merged_text, fault)
}

} // verus!
