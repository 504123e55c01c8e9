//! Walks a message's payload against its declared argument types: enough to
//! find object ids and count file descriptors without decoding everything.
use crate::interfaces;
use crate::interfaces::{describe, lookup_interface};
use crate::schema::{ArgumentType, InterfaceDesc, InterfaceModel, MessageDesc, MessageModel};
use crate::wire;
use crate::wire::{decode_text, word};
use vstd::prelude::*;
use vstd::slice::slice_subrange;

verus! {

/// What a walk found.
pub struct SignatureWalk {
    /// Where in the payload the id of the object this message creates stands,
    /// if it creates one.
    pub new_id_offset: Option<usize>,
    /// Where the ids of existing objects stand, in order.
    pub object_offsets: Vec<usize>,
    /// How many file descriptors belong to the message.  They take no bytes.
    pub fd_count: usize,
    /// The first non-null string that is valid text: `wl_registry.bind` names
    /// the interface of the new object this way.
    pub dynamic_interface_name: Option<String>,
}

/// What a [`SignatureWalk`] says.
#[verifier::ext_equal]
pub struct WalkModel {
    pub new_id_offset: Option<usize>,
    pub object_offsets: Seq<usize>,
    pub fd_count: nat,
    pub dynamic_interface_name: Option<Seq<char>>,
}

impl View for SignatureWalk {
    type V = WalkModel;

    open spec fn view(&self) -> WalkModel {
        WalkModel {
            new_id_offset: self.new_id_offset,
            object_offsets: self.object_offsets@,
            fd_count: self.fd_count as nat,
            dynamic_interface_name: match self.dynamic_interface_name {
                Some(s) => Some(s@),
                None => None,
            },
        }
    }
}

/// Where a walk stands: the offset it has reached and what it found so far.
#[verifier::ext_equal]
pub struct WalkState {
    pub offset: int,
    pub found: WalkModel,
}

/// Why a payload of `len` bytes does not reach `end`, if it does not.
pub open spec fn unreachable(len: int, end: int) -> Option<Seq<char>> {
    if end > usize::MAX {
        Some("offset overflow"@)
    } else if len < end {
        Some("payload shorter than its own signature declares"@)
    } else {
        None
    }
}

/// Walks over one argument.
pub open spec fn walk_argument(payload: Seq<u8>, st: WalkState, t: ArgumentType) -> Result<
    WalkState,
    Seq<char>,
> {
    let found = st.found;
    let end = st.offset + 4;
    if t is Fd {
        Ok(WalkState { found: WalkModel { fd_count: found.fd_count + 1, ..found }, ..st })
    } else if let Some(e) = unreachable(payload.len() as int, end) {
        Err(e)
    } else {
        match t {
            ArgumentType::Object => Ok(
                WalkState {
                    offset: end,
                    found: WalkModel {
                        object_offsets: found.object_offsets.push(st.offset as usize),
                        ..found
                    },
                },
            ),
            ArgumentType::NewId => Ok(
                WalkState {
                    offset: end,
                    found: WalkModel { new_id_offset: Some(st.offset as usize), ..found },
                },
            ),
            ArgumentType::Str | ArgumentType::Array => {
                let len = wire::word_at(payload, st.offset) as int;
                let data_end = end + wire::padded(len);
                if let Some(e) = unreachable(payload.len() as int, data_end) {
                    Err(e)
                } else if t is Str && found.dynamic_interface_name is None && len > 0 {
                    let name = wire::text_of(payload.subrange(end, end + len - 1));
                    Ok(
                        WalkState {
                            offset: data_end,
                            found: WalkModel { dynamic_interface_name: name, ..found },
                        },
                    )
                } else {
                    Ok(WalkState { offset: data_end, found })
                }
            },
            _ => Ok(WalkState { offset: end, found }),
        }
    }
}

/// Walks over the first `n` arguments.
pub open spec fn walk_prefix(payload: Seq<u8>, signature: Seq<ArgumentType>, n: int) -> Result<
    WalkState,
    Seq<char>,
>
    decreases n,
{
    if n <= 0 {
        Ok(
            WalkState {
                offset: 0,
                found: WalkModel {
                    new_id_offset: None,
                    object_offsets: Seq::empty(),
                    fd_count: 0,
                    dynamic_interface_name: None,
                },
            },
        )
    } else {
        match walk_prefix(payload, signature, n - 1) {
            Err(e) => Err(e),
            Ok(st) => walk_argument(payload, st, signature[n - 1]),
        }
    }
}

/// What walking the whole signature finds.
pub open spec fn walked(payload: Seq<u8>, signature: Seq<ArgumentType>) -> Result<
    WalkModel,
    Seq<char>,
> {
    match walk_prefix(payload, signature, signature.len() as int) {
        Ok(st) => Ok(st.found),
        Err(e) => Err(e),
    }
}

/// An argument that cannot be walked over stops the walk for good.
proof fn lemma_error_sticks(payload: Seq<u8>, signature: Seq<ArgumentType>, n: int, m: int)
    requires
        0 <= n <= m,
        walk_prefix(payload, signature, n) is Err,
    ensures
        walk_prefix(payload, signature, m) == walk_prefix(payload, signature, n),
    decreases m,
{
    if n < m {
        lemma_error_sticks(payload, signature, n, m - 1);
    }
}

/// What a walk finds lies inside the payload: every id it reports is a whole
/// word of it, and no two of them overlap.
pub proof fn lemma_walk_in_bounds(payload: Seq<u8>, signature: Seq<ArgumentType>, n: int)
    requires
        0 <= n,
        walk_prefix(payload, signature, n) is Ok,
    ensures
        ({
            let st = walk_prefix(payload, signature, n)->Ok_0;
            let found = st.found;
            &&& 0 <= st.offset <= payload.len()
            &&& st.offset <= usize::MAX
            &&& found.fd_count <= n
            &&& forall|i: int|
                0 <= i < found.object_offsets.len() ==> #[trigger] found.object_offsets[i] + 4
                    <= st.offset
            &&& forall|i: int, j: int|
                0 <= i < j < found.object_offsets.len() ==> #[trigger] found.object_offsets[i] + 4
                    <= #[trigger] found.object_offsets[j]
            &&& found.new_id_offset matches Some(at) ==> at + 4 <= st.offset && forall|i: int|
                0 <= i < found.object_offsets.len() ==> #[trigger] found.object_offsets[i] + 4 <= at
                    || at + 4 <= found.object_offsets[i]
        }),
    decreases n,
{
    if n > 0 {
        lemma_walk_in_bounds(payload, signature, n - 1);
    }
}

/// The offset `more` bytes behind `offset`, if a payload of `len` bytes
/// reaches it.
fn reach(len: usize, offset: usize, more: u64) -> (r: Result<usize, &'static str>)
    ensures
        r matches Ok(end) ==> end == offset + more && unreachable(len as int, offset + more) is None,
        r matches Err(e) ==> unreachable(len as int, offset + more) == Some(e@),
{
    let end: u128 = offset as u128 + more as u128;
    if end > usize::MAX as u128 {
        return Err("offset overflow");
    }
    if (len as u128) < end {
        return Err("payload shorter than its own signature declares");
    }
    Ok(end as usize)
}

/// Walks `payload` against `signature`.  Fails where the payload is shorter
/// than the signature declares.
pub fn walk_signature(payload: &[u8], signature: &[ArgumentType]) -> (r: Result<
    SignatureWalk,
    &'static str,
>)
    ensures
        r matches Ok(walk) ==> walked(payload@, signature@) == Ok::<WalkModel, Seq<char>>(walk@),
        r matches Err(e) ==> walked(payload@, signature@) == Err::<WalkModel, Seq<char>>(e@),
{
    let mut offset: usize = 0;
    let mut walk = SignatureWalk {
        new_id_offset: None,
        object_offsets: Vec::new(),
        fd_count: 0,
        dynamic_interface_name: None,
    };
    let mut i: usize = 0;
    while i < signature.len()
        invariant
            i <= signature.len(),
            walk_prefix(payload@, signature@, i as int) == Ok::<WalkState, Seq<char>>(
                WalkState { offset: offset as int, found: walk@ },
            ),
        decreases signature.len() - i,
    {
        let t = signature[i];
        proof {
            lemma_walk_in_bounds(payload@, signature@, i as int);
            if walk_prefix(payload@, signature@, i + 1) is Err {
                lemma_error_sticks(payload@, signature@, i + 1, signature@.len() as int);
            }
        }
        match t {
            ArgumentType::Fd => {
                walk.fd_count = walk.fd_count + 1;
            },
            _ => {
                let end: usize = match reach(payload.len(), offset, 4) {
                    Ok(end) => end,
                    Err(e) => return Err(e),
                };
                match t {
                    ArgumentType::Object => {
                        walk.object_offsets.push(offset);
                        offset = end;
                    },
                    ArgumentType::NewId => {
                        walk.new_id_offset = Some(offset);
                        offset = end;
                    },
                    ArgumentType::Str | ArgumentType::Array => {
                        let len: u32 = word(payload, offset);
                        let data_end: usize = match reach(
                            payload.len(),
                            end,
                            (len as u64 + 3) / 4 * 4,
                        ) {
                            Ok(data_end) => data_end,
                            Err(e) => return Err(e),
                        };
                        if matches!(t, ArgumentType::Str) && walk.dynamic_interface_name.is_none()
                            && len > 0 {
                            let stop: usize = end + (len as usize - 1);
                            walk.dynamic_interface_name =
                            decode_text(slice_subrange(payload, end, stop));
                        }
                        offset = data_end;
                    },
                    _ => {
                        offset = end;
                    },
                }
            },
        }
        i += 1;
    }
    Ok(walk)
}

/// The interface of the object that a message creates: the one its
/// description fixes, or else the one it names at run time, if that is known.
pub open spec fn child_interface(desc: MessageModel, name: Option<Seq<char>>) -> Option<
    InterfaceModel,
> {
    match desc.child_interface {
        Some(table) => Some(interfaces::described(*table)),
        None => match name {
            Some(name) if interfaces::bindable_names().contains(name) => Some(
                interfaces::interface_table(name),
            ),
            _ => None,
        },
    }
}

/// Resolves the interface of the object that a message creates, with its
/// version; see [`child_interface`].
pub fn resolve_child_interface(desc: &MessageDesc, dynamic_interface_name: Option<&str>) -> (r:
    Option<(InterfaceDesc, u32)>)
    ensures
        ({
            let name = match dynamic_interface_name {
                Some(s) => Some(s@),
                None => None,
            };
            match r {
                Some((i, version)) => child_interface(desc@, name) == Some(i@) && version
                    == i@.version,
                None => child_interface(desc@, name) is None,
            }
        }),
{
    if let Some(table) = desc.child_interface {
        let i = describe(table);
        let version: u32 = i.version;
        return Some((i, version));
    }
    match dynamic_interface_name {
        None => None,
        Some(name) => match lookup_interface(name) {
            None => None,
            Some(i) => {
                let version: u32 = i.version;
                Some((i, version))
            },
        },
    }
}

} // verus!
