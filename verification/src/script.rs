//! Region markers as script bytes, built with `bitcoin::script::Builder`.

use bitcoin::opcodes::all::{OP_DROP, OP_NOP10, OP_NOP9};
use bitcoin::opcodes::Opcode;
use bitcoin::script::{Builder, PushBytesBuf};
use vstd::prelude::*;
use vstd::slice::slice_to_vec;
use vstd::string::StringSliceAdditionalSpecFns;

verus! {

/// The opcode that opens the marker of a region's start.
pub const REGION_START: u8 = 0xb8;

/// The opcode that opens the marker of a region's end.
pub const REGION_END: u8 = 0xb9;

/// The opcode that discards the label and closes a marker.
pub const DISCARD: u8 = 0x75;

/// The byte of `bitcoin`'s `OP_NOP9`, a no-op that scripts do not otherwise use.
#[verifier::external_body]
pub(crate) fn region_start_opcode() -> (op: u8)
    ensures
        op == REGION_START,
{
    OP_NOP9.to_u8()
}

/// The byte of `bitcoin`'s `OP_NOP10`, a no-op that scripts do not otherwise use.
#[verifier::external_body]
pub(crate) fn region_end_opcode() -> (op: u8)
    ensures
        op == REGION_END,
{
    OP_NOP10.to_u8()
}

/// The byte of `bitcoin`'s `OP_DROP`.
#[verifier::external_body]
pub(crate) fn discard_opcode() -> (op: u8)
    ensures
        op == DISCARD,
{
    OP_DROP.to_u8()
}

/// `bitcoin::script::Builder`, which gathers the bytes of a script.
#[verifier::external_type_specification]
#[verifier::external_body]
pub struct ExBuilder(Builder);

/// The script bytes that a builder has gathered.
pub uninterp spec fn builder_bytes(b: Builder) -> Seq<u8>;

/// The bytes that push `data` onto the stack: the shortest of the four
/// length prefixes that holds its length, then the data.
pub open spec fn push_encoding(data: Seq<u8>) -> Seq<u8>
    recommends
        data.len() < 0x1_0000_0000,
{
    let n = data.len();
    if n < 0x4c {
        seq![n as u8] + data
    } else if n < 0x100 {
        seq![0x4cu8, n as u8] + data
    } else if n < 0x1_0000 {
        seq![0x4du8, (n % 0x100) as u8, (n / 0x100) as u8] + data
    } else {
        seq![
            0x4eu8,
            (n % 0x100) as u8,
            ((n / 0x100) % 0x100) as u8,
            ((n / 0x1_0000) % 0x100) as u8,
            (n / 0x100_0000) as u8,
        ] + data
    }
}

/// `Builder::new` starts with the empty script.
pub assume_specification[ Builder::new ]() -> (b: Builder)
    ensures
        builder_bytes(b) == Seq::<u8>::empty(),
;

/// `Builder::into_bytes` hands out the bytes gathered.
pub assume_specification[ Builder::into_bytes ](b: Builder) -> (v: Vec<u8>)
    ensures
        v@ == builder_bytes(b),
;

/// `Builder::push_opcode` appends the byte of the opcode.
#[verifier::external_body]
pub(crate) fn builder_push_opcode(b: Builder, op: u8) -> (r: Builder)
    ensures
        builder_bytes(r) == builder_bytes(b).push(op),
{
    b.push_opcode(Opcode::from(op))
}

/// `Builder::push_slice` appends the push of `data`. Data of 2^32 bytes or
/// more has no push, and is left out.
#[verifier::external_body]
pub(crate) fn builder_push_slice(b: Builder, data: Vec<u8>) -> (r: Builder)
    requires
        data@.len() < 0x1_0000_0000,
    ensures
        builder_bytes(r) == builder_bytes(b) + push_encoding(data@),
{
    b.push_slice(PushBytesBuf::try_from(data).unwrap())
}

/// The marker that `opcode` opens for `label`: the opcode, the push of the
/// label's bytes, and the discard.
pub open spec fn marker(opcode: u8, label: Seq<u8>) -> Seq<u8> {
    seq![opcode] + push_encoding(label) + seq![DISCARD]
}

fn build_marker(opcode: u8, t: &str) -> (r: Vec<u8>)
    requires
        t.spec_bytes().len() < 0x1_0000_0000,
    ensures
        r@ == marker(opcode, t.spec_bytes()),
{
    let mut builder = Builder::new();
    builder = builder_push_opcode(builder, opcode);
    builder = builder_push_slice(builder, slice_to_vec(t.as_bytes()));
    builder = builder_push_opcode(builder, discard_opcode());
    let r = builder.into_bytes();
    assert(r@ =~= marker(opcode, t.spec_bytes()));
    r
}

/// The script bytes that mark the start of the region `t`. A script machine
/// runs them as a no-op, a push and a discard.
pub fn profiler_start(t: &str) -> (r: Vec<u8>)
    requires
        t.spec_bytes().len() < 0x1_0000_0000,
    ensures
        r@ == marker(REGION_START, t.spec_bytes()),
{
    build_marker(region_start_opcode(), t)
}

/// The script bytes that mark the end of the region `t`.
pub fn profiler_end(t: &str) -> (r: Vec<u8>)
    requires
        t.spec_bytes().len() < 0x1_0000_0000,
    ensures
        r@ == marker(REGION_END, t.spec_bytes()),
{
    build_marker(region_end_opcode(), t)
}

} // verus!
