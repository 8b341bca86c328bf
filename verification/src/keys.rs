//! The key symbols that shortcuts are bound to, as `xkeysym` defines them.
//!
//! Each function hands out one of that crate's constants. That the constant has the value which
//! the function states is not proved but read off the crate.
use vstd::prelude::*;

verus! {

/// `xkeysym::key::BackSpace`, the symbol of Backspace, is 0xff08.
#[verifier::external_body]
pub(crate) fn backspace() -> (raw: u32)
    ensures
        raw == 0xff08,
{
    xkeysym::key::BackSpace
}

/// `xkeysym::key::Return`, the symbol of Return, is 0xff0d.
#[verifier::external_body]
pub(crate) fn enter() -> (raw: u32)
    ensures
        raw == 0xff0d,
{
    xkeysym::key::Return
}

/// `xkeysym::key::KP_Enter`, the symbol of the keypad's Enter, is 0xff8d.
#[verifier::external_body]
pub(crate) fn keypad_enter() -> (raw: u32)
    ensures
        raw == 0xff8d,
{
    xkeysym::key::KP_Enter
}

/// `xkeysym::key::q`, the symbol of the letter q, is 0x71.
#[verifier::external_body]
pub(crate) fn lower_q() -> (raw: u32)
    ensures
        raw == 0x71,
{
    xkeysym::key::q
}

/// `xkeysym::key::Q`, the symbol of the letter Q, is 0x51.
#[verifier::external_body]
pub(crate) fn upper_q() -> (raw: u32)
    ensures
        raw == 0x51,
{
    xkeysym::key::Q
}

/// `xkeysym::key::w`, the symbol of the letter w, is 0x77.
#[verifier::external_body]
pub(crate) fn lower_w() -> (raw: u32)
    ensures
        raw == 0x77,
{
    xkeysym::key::w
}

/// `xkeysym::key::W`, the symbol of the letter W, is 0x57.
#[verifier::external_body]
pub(crate) fn upper_w() -> (raw: u32)
    ensures
        raw == 0x57,
{
    xkeysym::key::W
}

/// `xkeysym::key::Left`, the symbol of the left arrow, is 0xff51.
#[verifier::external_body]
pub(crate) fn left() -> (raw: u32)
    ensures
        raw == 0xff51,
{
    xkeysym::key::Left
}

/// `xkeysym::key::Right`, the symbol of the right arrow, is 0xff53.
#[verifier::external_body]
pub(crate) fn right() -> (raw: u32)
    ensures
        raw == 0xff53,
{
    xkeysym::key::Right
}

/// `xkeysym::key::Up`, the symbol of the up arrow, is 0xff52.
#[verifier::external_body]
pub(crate) fn up() -> (raw: u32)
    ensures
        raw == 0xff52,
{
    xkeysym::key::Up
}

/// `xkeysym::key::Down`, the symbol of the down arrow, is 0xff54.
#[verifier::external_body]
pub(crate) fn down() -> (raw: u32)
    ensures
        raw == 0xff54,
{
    xkeysym::key::Down
}

/// `xkeysym::key::F1`, the symbol of F1, is 0xffbe.
#[verifier::external_body]
pub(crate) fn f1() -> (raw: u32)
    ensures
        raw == 0xffbe,
{
    xkeysym::key::F1
}

/// `xkeysym::key::F2`, the symbol of F2, is 0xffbf.
#[verifier::external_body]
pub(crate) fn f2() -> (raw: u32)
    ensures
        raw == 0xffbf,
{
    xkeysym::key::F2
}

/// `xkeysym::key::F3`, the symbol of F3, is 0xffc0.
#[verifier::external_body]
pub(crate) fn f3() -> (raw: u32)
    ensures
        raw == 0xffc0,
{
    xkeysym::key::F3
}

/// `xkeysym::key::F4`, the symbol of F4, is 0xffc1.
#[verifier::external_body]
pub(crate) fn f4() -> (raw: u32)
    ensures
        raw == 0xffc1,
{
    xkeysym::key::F4
}

/// `xkeysym::key::F5`, the symbol of F5, is 0xffc2.
#[verifier::external_body]
pub(crate) fn f5() -> (raw: u32)
    ensures
        raw == 0xffc2,
{
    xkeysym::key::F5
}

/// `xkeysym::key::F6`, the symbol of F6, is 0xffc3.
#[verifier::external_body]
pub(crate) fn f6() -> (raw: u32)
    ensures
        raw == 0xffc3,
{
    xkeysym::key::F6
}

/// `xkeysym::key::F7`, the symbol of F7, is 0xffc4.
#[verifier::external_body]
pub(crate) fn f7() -> (raw: u32)
    ensures
        raw == 0xffc4,
{
    xkeysym::key::F7
}

/// `xkeysym::key::F8`, the symbol of F8, is 0xffc5.
#[verifier::external_body]
pub(crate) fn f8() -> (raw: u32)
    ensures
        raw == 0xffc5,
{
    xkeysym::key::F8
}

/// `xkeysym::key::F9`, the symbol of F9, is 0xffc6.
#[verifier::external_body]
pub(crate) fn f9() -> (raw: u32)
    ensures
        raw == 0xffc6,
{
    xkeysym::key::F9
}

/// `xkeysym::key::F10`, the symbol of F10, is 0xffc7.
#[verifier::external_body]
pub(crate) fn f10() -> (raw: u32)
    ensures
        raw == 0xffc7,
{
    xkeysym::key::F10
}

/// `xkeysym::key::F11`, the symbol of F11, is 0xffc8.
#[verifier::external_body]
pub(crate) fn f11() -> (raw: u32)
    ensures
        raw == 0xffc8,
{
    xkeysym::key::F11
}

/// `xkeysym::key::F12`, the symbol of F12, is 0xffc9.
#[verifier::external_body]
pub(crate) fn f12() -> (raw: u32)
    ensures
        raw == 0xffc9,
{
    xkeysym::key::F12
}

/// `xkeysym::key::_1`, the symbol of the digit 1, is 0x31.
#[verifier::external_body]
pub(crate) fn digit_1() -> (raw: u32)
    ensures
        raw == 0x31,
{
    xkeysym::key::_1
}

/// `xkeysym::key::_2`, the symbol of the digit 2, is 0x32.
#[verifier::external_body]
pub(crate) fn digit_2() -> (raw: u32)
    ensures
        raw == 0x32,
{
    xkeysym::key::_2
}

/// `xkeysym::key::_3`, the symbol of the digit 3, is 0x33.
#[verifier::external_body]
pub(crate) fn digit_3() -> (raw: u32)
    ensures
        raw == 0x33,
{
    xkeysym::key::_3
}

/// `xkeysym::key::_4`, the symbol of the digit 4, is 0x34.
#[verifier::external_body]
pub(crate) fn digit_4() -> (raw: u32)
    ensures
        raw == 0x34,
{
    xkeysym::key::_4
}

/// `xkeysym::key::_5`, the symbol of the digit 5, is 0x35.
#[verifier::external_body]
pub(crate) fn digit_5() -> (raw: u32)
    ensures
        raw == 0x35,
{
    xkeysym::key::_5
}

/// `xkeysym::key::_6`, the symbol of the digit 6, is 0x36.
#[verifier::external_body]
pub(crate) fn digit_6() -> (raw: u32)
    ensures
        raw == 0x36,
{
    xkeysym::key::_6
}

/// `xkeysym::key::_7`, the symbol of the digit 7, is 0x37.
#[verifier::external_body]
pub(crate) fn digit_7() -> (raw: u32)
    ensures
        raw == 0x37,
{
    xkeysym::key::_7
}

/// `xkeysym::key::_8`, the symbol of the digit 8, is 0x38.
#[verifier::external_body]
pub(crate) fn digit_8() -> (raw: u32)
    ensures
        raw == 0x38,
{
    xkeysym::key::_8
}

/// `xkeysym::key::_9`, the symbol of the digit 9, is 0x39.
#[verifier::external_body]
pub(crate) fn digit_9() -> (raw: u32)
    ensures
        raw == 0x39,
{
    xkeysym::key::_9
}

} // verus!
