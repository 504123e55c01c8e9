//! Encodes the arguments of the messages the proxy sends on its own account.
use crate::schema::{share, ArgumentType};
use crate::signature;
use crate::wire;
use crate::wire::{put_block, put_str, put_u32};
use std::sync::Arc;
use vstd::prelude::*;
use vstd::utf8::*;

verus! {

/// One argument value.  `F` is a handle to a file descriptor.
pub enum WaylandValue<F> {
    Int(i32),
    Uint(u32),
    Fixed(i32),
    Object(u32),
    NewId(u32),
    String(String),
    Array(Vec<u8>),
    /// Takes a place among the arguments but no bytes: file descriptors travel
    /// beside the message.
    Fd(Arc<F>),
}

/// What a [`WaylandValue`] is.
#[verifier::ext_equal]
pub enum ValueModel<F> {
    Int(i32),
    Uint(u32),
    Fixed(i32),
    Object(u32),
    NewId(u32),
    String(Seq<char>),
    Array(Seq<u8>),
    Fd(Arc<F>),
}

impl<F> View for WaylandValue<F> {
    type V = ValueModel<F>;

    open spec fn view(&self) -> ValueModel<F> {
        match *self {
            WaylandValue::Int(v) => ValueModel::Int(v),
            WaylandValue::Uint(v) => ValueModel::Uint(v),
            WaylandValue::Fixed(v) => ValueModel::Fixed(v),
            WaylandValue::Object(v) => ValueModel::Object(v),
            WaylandValue::NewId(v) => ValueModel::NewId(v),
            WaylandValue::String(s) => ValueModel::String(s@),
            WaylandValue::Array(a) => ValueModel::Array(a@),
            WaylandValue::Fd(fd) => ValueModel::Fd(fd),
        }
    }
}

/// Why arguments could not be encoded.
#[derive(Debug, Clone, Copy, PartialEq, Eq, Structural)]
pub enum EncodeError {
    /// There are more or fewer values than the signature declares.
    CountMismatch,
    /// A value is not of the type the signature declares in its place.
    TypeMismatch,
    /// A string or array is longer than its length word can say.
    TooLong,
}

/// The bytes a value takes in the payload, if it can stand for a `t`.
pub open spec fn value_bytes<F>(t: ArgumentType, v: ValueModel<F>) -> Result<Seq<u8>, EncodeError> {
    match (t, v) {
        (ArgumentType::Int, ValueModel::Int(v)) => Ok(wire::word_bytes(v as u32)),
        (ArgumentType::Uint, ValueModel::Uint(v)) => Ok(wire::word_bytes(v)),
        (ArgumentType::Fixed, ValueModel::Fixed(v)) => Ok(wire::word_bytes(v as u32)),
        (ArgumentType::Object, ValueModel::Object(v)) => Ok(wire::word_bytes(v)),
        (ArgumentType::NewId, ValueModel::NewId(v)) => Ok(wire::word_bytes(v)),
        (ArgumentType::Str, ValueModel::String(s)) => if encode_utf8(s).len() < u32::MAX {
            Ok(wire::str_bytes(s))
        } else {
            Err(EncodeError::TooLong)
        },
        (ArgumentType::Array, ValueModel::Array(a)) => if a.len() <= u32::MAX {
            Ok(wire::block_bytes(a))
        } else {
            Err(EncodeError::TooLong)
        },
        (ArgumentType::Fd, ValueModel::Fd(_)) => Ok(Seq::empty()),
        _ => Err(EncodeError::TypeMismatch),
    }
}

/// The payload of the first `n` arguments, or why the first of them that
/// cannot be encoded cannot be.
pub open spec fn encoded_prefix<F>(
    signature: Seq<ArgumentType>,
    values: Seq<ValueModel<F>>,
    n: int,
) -> Result<Seq<u8>, EncodeError>
    decreases n,
{
    if n <= 0 {
        Ok(Seq::empty())
    } else {
        match encoded_prefix(signature, values, n - 1) {
            Err(e) => Err(e),
            Ok(bytes) => match value_bytes(signature[n - 1], values[n - 1]) {
                Err(e) => Err(e),
                Ok(more) => Ok(bytes + more),
            },
        }
    }
}

/// The file descriptors among the first `n` values, in order.
pub open spec fn fds_prefix<F>(values: Seq<ValueModel<F>>, n: int) -> Seq<Arc<F>>
    decreases n,
{
    if n <= 0 {
        Seq::empty()
    } else {
        match values[n - 1] {
            ValueModel::Fd(fd) => fds_prefix(values, n - 1).push(fd),
            _ => fds_prefix(values, n - 1),
        }
    }
}

/// The file descriptors among the values, in order.
pub open spec fn fds_of<F>(values: Seq<ValueModel<F>>) -> Seq<Arc<F>> {
    fds_prefix(values, values.len() as int)
}

/// The payload that a list of values makes under a signature.
pub open spec fn encoded<F>(signature: Seq<ArgumentType>, values: Seq<ValueModel<F>>) -> Result<
    Seq<u8>,
    EncodeError,
> {
    if signature.len() != values.len() {
        Err(EncodeError::CountMismatch)
    } else {
        encoded_prefix(signature, values, values.len() as int)
    }
}

/// What a list of values is.
pub open spec fn models<F>(values: Seq<WaylandValue<F>>) -> Seq<ValueModel<F>> {
    values.map_values(|v: WaylandValue<F>| v@)
}

/// A value that cannot be encoded stops the encoding for good.
proof fn lemma_error_sticks<F>(
    signature: Seq<ArgumentType>,
    values: Seq<ValueModel<F>>,
    n: int,
    m: int,
)
    requires
        0 <= n <= m,
        encoded_prefix(signature, values, n) is Err,
    ensures
        encoded_prefix(signature, values, m) == encoded_prefix(signature, values, n),
    decreases m,
{
    if n < m {
        lemma_error_sticks(signature, values, n, m - 1);
    }
}

/// A new id that comes first among the values is the first word of the payload.
pub proof fn lemma_new_id_first<F>(
    signature: Seq<ArgumentType>,
    values: Seq<ValueModel<F>>,
    id: u32,
    n: int,
)
    requires
        1 <= n <= values.len(),
        values[0] == ValueModel::<F>::NewId(id),
        encoded_prefix(signature, values, n) is Ok,
    ensures
        encoded_prefix(signature, values, n)->Ok_0.len() >= 4,
        wire::word_at(encoded_prefix(signature, values, n)->Ok_0, 0) == id,
    decreases n,
{
    let none = Seq::<u8>::empty();
    wire::lemma_word_round_trip(id);
    if n == 1 {
        assert(encoded_prefix(signature, values, 0) == Ok::<Seq<u8>, EncodeError>(none));
        assert(encoded_prefix(signature, values, 1)->Ok_0 =~= wire::word_bytes(id));
    } else {
        lemma_new_id_first(signature, values, id, n - 1);
    }
}

/// A new id that comes last among the values is the last word of the payload.
pub proof fn lemma_new_id_last<F>(
    signature: Seq<ArgumentType>,
    values: Seq<ValueModel<F>>,
    id: u32,
)
    requires
        values.len() > 0,
        values.last() == ValueModel::<F>::NewId(id),
        encoded(signature, values) is Ok,
    ensures
        encoded(signature, values)->Ok_0.len() >= 4,
        wire::word_at(
            encoded(signature, values)->Ok_0,
            encoded(signature, values)->Ok_0.len() - 4,
        ) == id,
{
    let before = encoded_prefix(signature, values, values.len() - 1)->Ok_0;
    wire::lemma_word_round_trip(id);
    wire::lemma_word_appended(before, id, Seq::empty());
    assert(before + wire::word_bytes(id) + Seq::<u8>::empty() =~= before + wire::word_bytes(id));
}

/// Appends one value to a payload.
fn put_value<F>(out: &mut Vec<u8>, t: ArgumentType, value: &WaylandValue<F>) -> (r: Result<
    (),
    EncodeError,
>)
    ensures
        match value_bytes(t, value@) {
            Ok(more) => r is Ok && final(out)@ == old(out)@ + more,
            Err(e) => r == Err::<(), EncodeError>(e) && final(out)@ == old(out)@,
        },
{
    match (t, value) {
        (ArgumentType::Int, WaylandValue::Int(v)) => put_u32(out, *v as u32),
        (ArgumentType::Uint, WaylandValue::Uint(v)) => put_u32(out, *v),
        (ArgumentType::Fixed, WaylandValue::Fixed(v)) => put_u32(out, *v as u32),
        (ArgumentType::Object, WaylandValue::Object(v)) => put_u32(out, *v),
        (ArgumentType::NewId, WaylandValue::NewId(v)) => put_u32(out, *v),
        (ArgumentType::Str, WaylandValue::String(s)) => {
            if s.as_str().as_bytes().len() as u128 >= u32::MAX as u128 {
                return Err(EncodeError::TooLong);
            }
            put_str(out, s.as_str());
        },
        (ArgumentType::Array, WaylandValue::Array(a)) => {
            if a.len() as u128 > u32::MAX as u128 {
                return Err(EncodeError::TooLong);
            }
            put_block(out, a.as_slice());
        },
        (ArgumentType::Fd, WaylandValue::Fd(_)) => {
            assert(out@ =~= old(out)@ + Seq::<u8>::empty());
        },
        _ => return Err(EncodeError::TypeMismatch),
    }
    Ok(())
}

/// Encodes `values` as the arguments that `signature` declares: the payload,
/// and the file descriptors that travel beside it.
pub fn encode_arguments<F>(signature: &[ArgumentType], values: Vec<WaylandValue<F>>) -> (r: Result<
    (Vec<u8>, Vec<Arc<F>>),
    EncodeError,
>)
    ensures
        match encoded(signature@, models(values@)) {
            Ok(payload) => r matches Ok((p, fds)) && p@ == payload && fds@ == fds_of(
                models(values@),
            ),
            Err(e) => r == Err::<(Vec<u8>, Vec<Arc<F>>), EncodeError>(e),
        },
{
    if signature.len() != values.len() {
        return Err(EncodeError::CountMismatch);
    }
    let ghost vs = models(values@);
    let mut out: Vec<u8> = Vec::new();
    let mut fds: Vec<Arc<F>> = Vec::new();
    let mut i: usize = 0;
    while i < values.len()
        invariant
            i <= values.len(),
            signature@.len() == values@.len(),
            vs == models(values@),
            encoded_prefix(signature@, vs, i as int) == Ok::<Seq<u8>, EncodeError>(out@),
            fds@ == fds_prefix(vs, i as int),
        decreases values.len() - i,
    {
        proof {
            if encoded_prefix(signature@, vs, i + 1) is Err {
                lemma_error_sticks(signature@, vs, i + 1, vs.len() as int);
            }
        }
        match put_value(&mut out, signature[i], &values[i]) {
            Ok(()) => {},
            Err(e) => return Err(e),
        }
        if let WaylandValue::Fd(fd) = &values[i] {
            fds.push(share(fd));
        }
        i += 1;
    }
    Ok((out, fds))
}

/// The object ids among the first `n` values, in order.
pub open spec fn objects_prefix<F>(values: Seq<ValueModel<F>>, n: int) -> Seq<u32>
    decreases n,
{
    if n <= 0 {
        Seq::empty()
    } else {
        match values[n - 1] {
            ValueModel::Object(id) => objects_prefix(values, n - 1).push(id),
            _ => objects_prefix(values, n - 1),
        }
    }
}

/// The last new object id among the first `n` values.
pub open spec fn new_id_prefix<F>(values: Seq<ValueModel<F>>, n: int) -> Option<u32>
    decreases n,
{
    if n <= 0 {
        None
    } else {
        match values[n - 1] {
            ValueModel::NewId(id) => Some(id),
            _ => new_id_prefix(values, n - 1),
        }
    }
}

/// Walking over one encoded value ends right behind it and takes note of it
/// if it is an object id, a new id or a file descriptor.
proof fn lemma_walk_over_value<F>(
    before: Seq<u8>,
    t: ArgumentType,
    v: ValueModel<F>,
    rest: Seq<u8>,
    st: signature::WalkState,
)
    requires
        value_bytes(t, v) is Ok,
        st.offset == before.len(),
        (before + value_bytes(t, v)->Ok_0 + rest).len() <= usize::MAX,
    ensures
        ({
            let payload = before + value_bytes(t, v)->Ok_0 + rest;
            let at = before.len() as int;
            let next = signature::walk_argument(payload, st, t)->Ok_0;
            &&& signature::walk_argument(payload, st, t) is Ok
            &&& next.offset == (before + value_bytes(t, v)->Ok_0).len()
            &&& next.found.fd_count == st.found.fd_count + if v is Fd { 1int } else { 0 }
            &&& match v {
                ValueModel::Object(id) => next.found.object_offsets
                    == st.found.object_offsets.push(at as usize) && wire::word_at(payload, at) == id,
                _ => next.found.object_offsets == st.found.object_offsets,
            }
            &&& match v {
                ValueModel::NewId(id) => next.found.new_id_offset == Some(at as usize)
                    && wire::word_at(payload, at) == id,
                _ => next.found.new_id_offset == st.found.new_id_offset,
            }
        }),
{
    match v {
        ValueModel::Int(v) => {
            wire::lemma_word_round_trip(v as u32);
        },
        ValueModel::Uint(v) => {
            wire::lemma_word_round_trip(v);
        },
        ValueModel::Fixed(v) => {
            wire::lemma_word_round_trip(v as u32);
        },
        ValueModel::Object(v) => {
            wire::lemma_word_round_trip(v);
            wire::lemma_word_appended(before, v, rest);
        },
        ValueModel::NewId(v) => {
            wire::lemma_word_round_trip(v);
            wire::lemma_word_appended(before, v, rest);
        },
        ValueModel::String(s) => {
            wire::lemma_block_appended(before, encode_utf8(s).push(0), rest);
        },
        ValueModel::Array(a) => {
            wire::lemma_block_appended(before, a, rest);
        },
        ValueModel::Fd(_) => {
            assert(before + Seq::<u8>::empty() =~= before);
        },
    }
}

/// Walking finds what encoding wrote: over the payload that `values` make, a
/// walk of the same signature succeeds, counts their file descriptors, and
/// reports exactly the places where their object ids and their new id stand.
pub proof fn lemma_walk_finds_encoded<F>(
    signature: Seq<ArgumentType>,
    values: Seq<ValueModel<F>>,
    n: int,
    rest: Seq<u8>,
)
    requires
        0 <= n <= values.len(),
        signature.len() == values.len(),
        encoded_prefix(signature, values, n) is Ok,
        (encoded_prefix(signature, values, n)->Ok_0 + rest).len() <= usize::MAX,
    ensures
        ({
            let bytes = encoded_prefix(signature, values, n)->Ok_0;
            let payload = bytes + rest;
            let walk = signature::walk_prefix(payload, signature, n);
            let found = walk->Ok_0.found;
            &&& walk is Ok
            &&& walk->Ok_0.offset == bytes.len()
            &&& found.fd_count == fds_prefix(values, n).len()
            &&& found.object_offsets.map_values(|at: usize| wire::word_at(payload, at as int))
                == objects_prefix(values, n)
            &&& match new_id_prefix(values, n) {
                Some(id) => found.new_id_offset matches Some(at) && wire::word_at(payload, at as int)
                    == id,
                None => found.new_id_offset is None,
            }
        }),
    decreases n,
{
    if n > 0 {
        let before = encoded_prefix(signature, values, n - 1)->Ok_0;
        let more = value_bytes(signature[n - 1], values[n - 1])->Ok_0;
        let payload = before + more + rest;
        assert(before + (more + rest) =~= payload);
        lemma_walk_finds_encoded(signature, values, n - 1, more + rest);
        let st = signature::walk_prefix(payload, signature, n - 1)->Ok_0;
        lemma_walk_over_value(before, signature[n - 1], values[n - 1], rest, st);
        signature::lemma_walk_in_bounds(payload, signature, n - 1);
        let found = signature::walk_prefix(payload, signature, n)->Ok_0.found;
        assert(found.object_offsets.map_values(|at: usize| wire::word_at(payload, at as int))
            =~= objects_prefix(values, n));
    }
}

} // verus!
