//! The contract an operation must satisfy to be captured: a stable name, a
//! description, duplication, a lossless canonical text codec for its state
//! and its arguments, and a fallible, possibly mutating invocation.
use vstd::prelude::*;

verus! {

/// A value holds state that the canonical text encoding cannot express.
#[derive(PartialEq, Eq, Structural, Debug)]
pub enum EncodeError {
    /// The state cannot be written as canonical text.
    Unencodable,
}

/// A text is not the canonical encoding of any value.
#[derive(PartialEq, Eq, Structural, Debug)]
pub enum DecodeError {
    /// The text is not the canonical encoding of any value.
    Malformed,
}

/// An operation that can be captured on failure and replayed from text.
///
/// The capability set: a stable reference name, a human-readable intent, an
/// independent duplicate, a canonical text codec that loses nothing
/// (`decode` must take every canonical text back to the one value that
/// encodes to it), and one mutating, fallible invocation. Internally shared
/// mutable state is unsupported: the codec cannot preserve aliasing, so an
/// operation's state must be value-like and owned in full.
pub trait Executable: Sized {
    /// What a successful invocation returns.
    type Output;

    /// What a failing invocation returns; it must be printable as text.
    type Error;

    /// The immutable input of one invocation; never mutated by it.
    type Arguments;

    /// The stable, fully qualified name of the concrete operation type,
    /// constant for the type, used to reconstruct it in a generated test.
    spec fn full_path_spec() -> Seq<char>;

    /// The intent text of this instance.
    spec fn description_spec(&self) -> Seq<char>;

    /// The canonical text encoding of the state, if the state has one.
    spec fn encoding(&self) -> Option<Seq<char>>;

    /// The canonical text encoding of an arguments value, if it has one.
    spec fn arguments_encoding(args: Self::Arguments) -> Option<Seq<char>>;

    /// The printed form of an error value.
    spec fn error_text_spec(err: Self::Error) -> Seq<char>;

    /// What one invocation guarantees: how the state after the call and the
    /// outcome relate to the state before it and the arguments.
    spec fn invoke_ensures(
        pre: Self,
        post: Self,
        args: Self::Arguments,
        out: Result<Self::Output, Self::Error>,
    ) -> bool;

    /// The stable reference name of the concrete type.
    fn full_path(&self) -> (r: &'static str)
        ensures
            r@ == Self::full_path_spec(),
    ;

    /// The intent text of this instance.
    fn description(&self) -> (r: String)
        ensures
            r@ == self.description_spec(),
    ;

    /// An independent duplicate, equal to this value.
    fn duplicate(&self) -> (r: Self)
        ensures
            r == *self,
    ;

    /// Encodes the state to its canonical text.
    fn encode(&self) -> (r: Result<String, EncodeError>)
        ensures
            r matches Ok(s) ==> self.encoding() == Some(s@),
            r is Err ==> self.encoding() is None,
    ;

    /// Decodes a canonical text back to the one value it encodes.
    fn decode(text: &str) -> (r: Result<Self, DecodeError>)
        ensures
            forall|v: Self| (#[trigger] v.encoding()) == Some(text@) ==> r == Ok::<
                Self,
                DecodeError,
            >(v),
            r matches Ok(v) ==> v.encoding() == Some(text@),
    ;

    /// Encodes an arguments value to its canonical text.
    fn encode_arguments(args: &Self::Arguments) -> (r: Result<String, EncodeError>)
        ensures
            r matches Ok(s) ==> Self::arguments_encoding(*args) == Some(s@),
            r is Err ==> Self::arguments_encoding(*args) is None,
    ;

    /// Decodes a canonical text back to the one arguments value it encodes.
    fn decode_arguments(text: &str) -> (r: Result<Self::Arguments, DecodeError>)
        ensures
            forall|a: Self::Arguments| (#[trigger] Self::arguments_encoding(a)) == Some(text@)
                ==> r == Ok::<Self::Arguments, DecodeError>(a),
            r matches Ok(a) ==> Self::arguments_encoding(a) == Some(text@),
    ;

    /// The printed form of an error value.
    fn error_text(err: &Self::Error) -> (r: String)
        ensures
            r@ == Self::error_text_spec(*err),
    ;

    /// Performs the operation's effect: the one mutating method, a single
    /// attempt, never retried internally.
    fn execute(&mut self, args: &Self::Arguments) -> (r: Result<Self::Output, Self::Error>)
        ensures
            Self::invoke_ensures(*old(self), *final(self), *args, r),
    ;
}

/// The round-trip law the codec contracts force: encoding any encodable
/// operation and decoding the text yields the operation back, unchanged.
pub fn encode_then_decode<E: Executable>(v: &E) -> (r: Option<E>)
    ensures
        v.encoding() is Some ==> (r matches Some(w) && w == *v),
{
    match v.encode() {
        Ok(text) => match E::decode(text.as_str()) {
            Ok(w) => Some(w),
            Err(_) => None,
        },
        Err(_) => None,
    }
}

/// The round-trip law for arguments: encoding any encodable arguments value
/// and decoding the text yields the value back, unchanged.
pub fn encode_then_decode_arguments<E: Executable>(args: &E::Arguments) -> (r: Option<
    E::Arguments,
>)
    ensures
        E::arguments_encoding(*args) is Some ==> (r matches Some(b) && b == *args),
{
    match E::encode_arguments(args) {
        Ok(text) => match E::decode_arguments(text.as_str()) {
            Ok(b) => Some(b),
            Err(_) => None,
        },
        Err(_) => None,
    }
}

} // verus!
