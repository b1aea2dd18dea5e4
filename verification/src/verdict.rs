//! The codes by which a packet hook tells the kernel what to do with a
//! packet, as the `aya-ebpf` crate defines them.

use vstd::prelude::*;

verus! {

/// The XDP code that lets a packet through:
/// `aya_ebpf::bindings::xdp_action::XDP_PASS`, a constant 2.
#[verifier::external_body]
pub(crate) fn xdp_pass() -> (code: u32)
    ensures
        code == 2,
{
    aya_ebpf::bindings::xdp_action::XDP_PASS
}

/// The XDP code that discards a packet:
/// `aya_ebpf::bindings::xdp_action::XDP_DROP`, a constant 1.
#[verifier::external_body]
pub(crate) fn xdp_drop() -> (code: u32)
    ensures
        code == 1,
{
    aya_ebpf::bindings::xdp_action::XDP_DROP
}

/// The traffic-control code that hands a packet on to the next action:
/// `aya_ebpf::bindings::TC_ACT_PIPE`, a constant 3.
#[verifier::external_body]
pub(crate) fn tc_act_pipe() -> (code: i32)
    ensures
        code == 3,
{
    aya_ebpf::bindings::TC_ACT_PIPE
}

/// The traffic-control code that discards a packet:
/// `aya_ebpf::bindings::TC_ACT_SHOT`, a constant 2.
#[verifier::external_body]
pub(crate) fn tc_act_shot() -> (code: i32)
    ensures
        code == 2,
{
    aya_ebpf::bindings::TC_ACT_SHOT
}

} // verus!
