//! Named ASCII codes used by the wire text.  Verus takes no byte or char
//! literals in specifications, so every character the protocol writes is
//! named here once.

use vstd::prelude::*;

verus! {

pub const CH_LBRACE: u8 = 123;

pub const CH_RBRACE: u8 = 125;

pub const CH_QUOTE: u8 = 34;

pub const CH_BACKSLASH: u8 = 92;

pub const CH_COLON: u8 = 58;

pub const CH_COMMA: u8 = 44;

pub const CH_SPACE: u8 = 32;

pub const CH_HYPHEN: u8 = 45;

pub const CH_0: u8 = 48;

pub const CH_1: u8 = 49;

pub const CH_2: u8 = 50;

pub const CH_3: u8 = 51;

pub const CH_4: u8 = 52;

pub const CH_5: u8 = 53;

pub const CH_6: u8 = 54;

pub const CH_8: u8 = 56;

pub const CH_9: u8 = 57;

pub const CH_A: u8 = 97;

pub const CH_B: u8 = 98;

pub const CH_C: u8 = 99;

pub const CH_D: u8 = 100;

pub const CH_E: u8 = 101;

pub const CH_F: u8 = 102;

pub const CH_G: u8 = 103;

pub const CH_H: u8 = 104;

pub const CH_I: u8 = 105;

pub const CH_K: u8 = 107;

pub const CH_L: u8 = 108;

pub const CH_M: u8 = 109;

pub const CH_N: u8 = 110;

pub const CH_O: u8 = 111;

pub const CH_P: u8 = 112;

pub const CH_R: u8 = 114;

pub const CH_S: u8 = 115;

pub const CH_T: u8 = 116;

pub const CH_U: u8 = 117;

pub const CH_W: u8 = 119;

pub const CH_X: u8 = 120;

pub const CH_Y: u8 = 121;

pub const CH_UP_E: u8 = 69;

pub const CH_UP_M: u8 = 77;

pub const CH_UP_R: u8 = 82;

pub const CH_UP_S: u8 = 83;

} // verus!
