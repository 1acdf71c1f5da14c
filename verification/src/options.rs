//! Player options: the closed lane-key identifier type, its textual form,
//! and the options file codec.
//!
//! Keys are a closed enumeration with an explicit two-way mapping to their
//! persisted names; `lemma_key_name_round_trip` states that the mapping is
//! bidirectional, and `lemma_options_round_trip` that writing the options
//! file and reading it back gives the options back.

use vstd::prelude::*;
use vstd::string::StringSliceAdditionalSpecFns;
use vstd::string::is_ascii;

use crate::decimal::parse_i32;
use crate::decimal::parse_i32_spec;
use crate::text::bytes_eq;
use crate::text::push_bytes;
use crate::text::split_on;
use crate::text::split_spec;
use crate::text::trim;
use crate::text::trim_spec;

verus! {

/// A key a lane can be bound to.
#[derive(Clone, Copy, Debug, PartialEq, Eq, Structural)]
pub enum LaneKey {
    A,
    B,
    C,
    D,
    E,
    F,
    G,
    H,
    I,
    J,
    K,
    L,
    M,
    N,
    O,
    P,
    Q,
    R,
    S,
    T,
    U,
    V,
    W,
    X,
    Y,
    Z,
    Key0,
    Key1,
    Key2,
    Key3,
    Key4,
    Key5,
    Key6,
    Key7,
    Key8,
    Key9,
    Space,
    LeftShift,
    RightShift,
    LeftControl,
    RightControl,
    LeftAlt,
    RightAlt,
    Comma,
    Period,
    Slash,
    Semicolon,
    Apostrophe,
    LeftBracket,
    RightBracket,
}

/// The persisted name of a key.
pub open spec fn key_name_spec(k: LaneKey) -> Seq<u8> {
    match k {
        LaneKey::A => seq![65u8],
        LaneKey::B => seq![66u8],
        LaneKey::C => seq![67u8],
        LaneKey::D => seq![68u8],
        LaneKey::E => seq![69u8],
        LaneKey::F => seq![70u8],
        LaneKey::G => seq![71u8],
        LaneKey::H => seq![72u8],
        LaneKey::I => seq![73u8],
        LaneKey::J => seq![74u8],
        LaneKey::K => seq![75u8],
        LaneKey::L => seq![76u8],
        LaneKey::M => seq![77u8],
        LaneKey::N => seq![78u8],
        LaneKey::O => seq![79u8],
        LaneKey::P => seq![80u8],
        LaneKey::Q => seq![81u8],
        LaneKey::R => seq![82u8],
        LaneKey::S => seq![83u8],
        LaneKey::T => seq![84u8],
        LaneKey::U => seq![85u8],
        LaneKey::V => seq![86u8],
        LaneKey::W => seq![87u8],
        LaneKey::X => seq![88u8],
        LaneKey::Y => seq![89u8],
        LaneKey::Z => seq![90u8],
        LaneKey::Key0 => seq![75u8, 101u8, 121u8, 48u8],
        LaneKey::Key1 => seq![75u8, 101u8, 121u8, 49u8],
        LaneKey::Key2 => seq![75u8, 101u8, 121u8, 50u8],
        LaneKey::Key3 => seq![75u8, 101u8, 121u8, 51u8],
        LaneKey::Key4 => seq![75u8, 101u8, 121u8, 52u8],
        LaneKey::Key5 => seq![75u8, 101u8, 121u8, 53u8],
        LaneKey::Key6 => seq![75u8, 101u8, 121u8, 54u8],
        LaneKey::Key7 => seq![75u8, 101u8, 121u8, 55u8],
        LaneKey::Key8 => seq![75u8, 101u8, 121u8, 56u8],
        LaneKey::Key9 => seq![75u8, 101u8, 121u8, 57u8],
        LaneKey::Space => seq![83u8, 112u8, 97u8, 99u8, 101u8],
        LaneKey::LeftShift => seq![76u8, 101u8, 102u8, 116u8, 83u8, 104u8, 105u8, 102u8, 116u8],
        LaneKey::RightShift => seq![82u8, 105u8, 103u8, 104u8, 116u8, 83u8, 104u8, 105u8, 102u8, 116u8],
        LaneKey::LeftControl => seq![76u8, 101u8, 102u8, 116u8, 67u8, 111u8, 110u8, 116u8, 114u8, 111u8, 108u8],
        LaneKey::RightControl => seq![82u8, 105u8, 103u8, 104u8, 116u8, 67u8, 111u8, 110u8, 116u8, 114u8, 111u8, 108u8],
        LaneKey::LeftAlt => seq![76u8, 101u8, 102u8, 116u8, 65u8, 108u8, 116u8],
        LaneKey::RightAlt => seq![82u8, 105u8, 103u8, 104u8, 116u8, 65u8, 108u8, 116u8],
        LaneKey::Comma => seq![67u8, 111u8, 109u8, 109u8, 97u8],
        LaneKey::Period => seq![80u8, 101u8, 114u8, 105u8, 111u8, 100u8],
        LaneKey::Slash => seq![83u8, 108u8, 97u8, 115u8, 104u8],
        LaneKey::Semicolon => seq![83u8, 101u8, 109u8, 105u8, 99u8, 111u8, 108u8, 111u8, 110u8],
        LaneKey::Apostrophe => seq![65u8, 112u8, 111u8, 115u8, 116u8, 114u8, 111u8, 112u8, 104u8, 101u8],
        LaneKey::LeftBracket => seq![76u8, 101u8, 102u8, 116u8, 66u8, 114u8, 97u8, 99u8, 107u8, 101u8, 116u8],
        LaneKey::RightBracket => seq![82u8, 105u8, 103u8, 104u8, 116u8, 66u8, 114u8, 97u8, 99u8, 107u8, 101u8, 116u8],
    }
}

impl LaneKey {
    /// The persisted name of this key.
    pub fn key_name(&self) -> (r: Vec<u8>)
        ensures
            r@ == key_name_spec(*self),
    {
        let mut v: Vec<u8> = Vec::new();
        match self {
            LaneKey::A => {
                v.push(65u8);
                proof {
                    assert(v@ =~= seq![65u8]);
                }
            },
            LaneKey::B => {
                v.push(66u8);
                proof {
                    assert(v@ =~= seq![66u8]);
                }
            },
            LaneKey::C => {
                v.push(67u8);
                proof {
                    assert(v@ =~= seq![67u8]);
                }
            },
            LaneKey::D => {
                v.push(68u8);
                proof {
                    assert(v@ =~= seq![68u8]);
                }
            },
            LaneKey::E => {
                v.push(69u8);
                proof {
                    assert(v@ =~= seq![69u8]);
                }
            },
            LaneKey::F => {
                v.push(70u8);
                proof {
                    assert(v@ =~= seq![70u8]);
                }
            },
            LaneKey::G => {
                v.push(71u8);
                proof {
                    assert(v@ =~= seq![71u8]);
                }
            },
            LaneKey::H => {
                v.push(72u8);
                proof {
                    assert(v@ =~= seq![72u8]);
                }
            },
            LaneKey::I => {
                v.push(73u8);
                proof {
                    assert(v@ =~= seq![73u8]);
                }
            },
            LaneKey::J => {
                v.push(74u8);
                proof {
                    assert(v@ =~= seq![74u8]);
                }
            },
            LaneKey::K => {
                v.push(75u8);
                proof {
                    assert(v@ =~= seq![75u8]);
                }
            },
            LaneKey::L => {
                v.push(76u8);
                proof {
                    assert(v@ =~= seq![76u8]);
                }
            },
            LaneKey::M => {
                v.push(77u8);
                proof {
                    assert(v@ =~= seq![77u8]);
                }
            },
            LaneKey::N => {
                v.push(78u8);
                proof {
                    assert(v@ =~= seq![78u8]);
                }
            },
            LaneKey::O => {
                v.push(79u8);
                proof {
                    assert(v@ =~= seq![79u8]);
                }
            },
            LaneKey::P => {
                v.push(80u8);
                proof {
                    assert(v@ =~= seq![80u8]);
                }
            },
            LaneKey::Q => {
                v.push(81u8);
                proof {
                    assert(v@ =~= seq![81u8]);
                }
            },
            LaneKey::R => {
                v.push(82u8);
                proof {
                    assert(v@ =~= seq![82u8]);
                }
            },
            LaneKey::S => {
                v.push(83u8);
                proof {
                    assert(v@ =~= seq![83u8]);
                }
            },
            LaneKey::T => {
                v.push(84u8);
                proof {
                    assert(v@ =~= seq![84u8]);
                }
            },
            LaneKey::U => {
                v.push(85u8);
                proof {
                    assert(v@ =~= seq![85u8]);
                }
            },
            LaneKey::V => {
                v.push(86u8);
                proof {
                    assert(v@ =~= seq![86u8]);
                }
            },
            LaneKey::W => {
                v.push(87u8);
                proof {
                    assert(v@ =~= seq![87u8]);
                }
            },
            LaneKey::X => {
                v.push(88u8);
                proof {
                    assert(v@ =~= seq![88u8]);
                }
            },
            LaneKey::Y => {
                v.push(89u8);
                proof {
                    assert(v@ =~= seq![89u8]);
                }
            },
            LaneKey::Z => {
                v.push(90u8);
                proof {
                    assert(v@ =~= seq![90u8]);
                }
            },
            LaneKey::Key0 => {
                v.push(75u8);
                v.push(101u8);
                v.push(121u8);
                v.push(48u8);
                proof {
                    assert(v@ =~= seq![75u8, 101u8, 121u8, 48u8]);
                }
            },
            LaneKey::Key1 => {
                v.push(75u8);
                v.push(101u8);
                v.push(121u8);
                v.push(49u8);
                proof {
                    assert(v@ =~= seq![75u8, 101u8, 121u8, 49u8]);
                }
            },
            LaneKey::Key2 => {
                v.push(75u8);
                v.push(101u8);
                v.push(121u8);
                v.push(50u8);
                proof {
                    assert(v@ =~= seq![75u8, 101u8, 121u8, 50u8]);
                }
            },
            LaneKey::Key3 => {
                v.push(75u8);
                v.push(101u8);
                v.push(121u8);
                v.push(51u8);
                proof {
                    assert(v@ =~= seq![75u8, 101u8, 121u8, 51u8]);
                }
            },
            LaneKey::Key4 => {
                v.push(75u8);
                v.push(101u8);
                v.push(121u8);
                v.push(52u8);
                proof {
                    assert(v@ =~= seq![75u8, 101u8, 121u8, 52u8]);
                }
            },
            LaneKey::Key5 => {
                v.push(75u8);
                v.push(101u8);
                v.push(121u8);
                v.push(53u8);
                proof {
                    assert(v@ =~= seq![75u8, 101u8, 121u8, 53u8]);
                }
            },
            LaneKey::Key6 => {
                v.push(75u8);
                v.push(101u8);
                v.push(121u8);
                v.push(54u8);
                proof {
                    assert(v@ =~= seq![75u8, 101u8, 121u8, 54u8]);
                }
            },
            LaneKey::Key7 => {
                v.push(75u8);
                v.push(101u8);
                v.push(121u8);
                v.push(55u8);
                proof {
                    assert(v@ =~= seq![75u8, 101u8, 121u8, 55u8]);
                }
            },
            LaneKey::Key8 => {
                v.push(75u8);
                v.push(101u8);
                v.push(121u8);
                v.push(56u8);
                proof {
                    assert(v@ =~= seq![75u8, 101u8, 121u8, 56u8]);
                }
            },
            LaneKey::Key9 => {
                v.push(75u8);
                v.push(101u8);
                v.push(121u8);
                v.push(57u8);
                proof {
                    assert(v@ =~= seq![75u8, 101u8, 121u8, 57u8]);
                }
            },
            LaneKey::Space => {
                v.push(83u8);
                v.push(112u8);
                v.push(97u8);
                v.push(99u8);
                v.push(101u8);
                proof {
                    assert(v@ =~= seq![83u8, 112u8, 97u8, 99u8, 101u8]);
                }
            },
            LaneKey::LeftShift => {
                v.push(76u8);
                v.push(101u8);
                v.push(102u8);
                v.push(116u8);
                v.push(83u8);
                v.push(104u8);
                v.push(105u8);
                v.push(102u8);
                v.push(116u8);
                proof {
                    assert(v@ =~= seq![76u8, 101u8, 102u8, 116u8, 83u8, 104u8, 105u8, 102u8, 116u8]);
                }
            },
            LaneKey::RightShift => {
                v.push(82u8);
                v.push(105u8);
                v.push(103u8);
                v.push(104u8);
                v.push(116u8);
                v.push(83u8);
                v.push(104u8);
                v.push(105u8);
                v.push(102u8);
                v.push(116u8);
                proof {
                    assert(v@ =~= seq![82u8, 105u8, 103u8, 104u8, 116u8, 83u8, 104u8, 105u8, 102u8, 116u8]);
                }
            },
            LaneKey::LeftControl => {
                v.push(76u8);
                v.push(101u8);
                v.push(102u8);
                v.push(116u8);
                v.push(67u8);
                v.push(111u8);
                v.push(110u8);
                v.push(116u8);
                v.push(114u8);
                v.push(111u8);
                v.push(108u8);
                proof {
                    assert(v@ =~= seq![76u8, 101u8, 102u8, 116u8, 67u8, 111u8, 110u8, 116u8, 114u8, 111u8, 108u8]);
                }
            },
            LaneKey::RightControl => {
                v.push(82u8);
                v.push(105u8);
                v.push(103u8);
                v.push(104u8);
                v.push(116u8);
                v.push(67u8);
                v.push(111u8);
                v.push(110u8);
                v.push(116u8);
                v.push(114u8);
                v.push(111u8);
                v.push(108u8);
                proof {
                    assert(v@ =~= seq![82u8, 105u8, 103u8, 104u8, 116u8, 67u8, 111u8, 110u8, 116u8, 114u8, 111u8, 108u8]);
                }
            },
            LaneKey::LeftAlt => {
                v.push(76u8);
                v.push(101u8);
                v.push(102u8);
                v.push(116u8);
                v.push(65u8);
                v.push(108u8);
                v.push(116u8);
                proof {
                    assert(v@ =~= seq![76u8, 101u8, 102u8, 116u8, 65u8, 108u8, 116u8]);
                }
            },
            LaneKey::RightAlt => {
                v.push(82u8);
                v.push(105u8);
                v.push(103u8);
                v.push(104u8);
                v.push(116u8);
                v.push(65u8);
                v.push(108u8);
                v.push(116u8);
                proof {
                    assert(v@ =~= seq![82u8, 105u8, 103u8, 104u8, 116u8, 65u8, 108u8, 116u8]);
                }
            },
            LaneKey::Comma => {
                v.push(67u8);
                v.push(111u8);
                v.push(109u8);
                v.push(109u8);
                v.push(97u8);
                proof {
                    assert(v@ =~= seq![67u8, 111u8, 109u8, 109u8, 97u8]);
                }
            },
            LaneKey::Period => {
                v.push(80u8);
                v.push(101u8);
                v.push(114u8);
                v.push(105u8);
                v.push(111u8);
                v.push(100u8);
                proof {
                    assert(v@ =~= seq![80u8, 101u8, 114u8, 105u8, 111u8, 100u8]);
                }
            },
            LaneKey::Slash => {
                v.push(83u8);
                v.push(108u8);
                v.push(97u8);
                v.push(115u8);
                v.push(104u8);
                proof {
                    assert(v@ =~= seq![83u8, 108u8, 97u8, 115u8, 104u8]);
                }
            },
            LaneKey::Semicolon => {
                v.push(83u8);
                v.push(101u8);
                v.push(109u8);
                v.push(105u8);
                v.push(99u8);
                v.push(111u8);
                v.push(108u8);
                v.push(111u8);
                v.push(110u8);
                proof {
                    assert(v@ =~= seq![83u8, 101u8, 109u8, 105u8, 99u8, 111u8, 108u8, 111u8, 110u8]);
                }
            },
            LaneKey::Apostrophe => {
                v.push(65u8);
                v.push(112u8);
                v.push(111u8);
                v.push(115u8);
                v.push(116u8);
                v.push(114u8);
                v.push(111u8);
                v.push(112u8);
                v.push(104u8);
                v.push(101u8);
                proof {
                    assert(v@ =~= seq![65u8, 112u8, 111u8, 115u8, 116u8, 114u8, 111u8, 112u8, 104u8, 101u8]);
                }
            },
            LaneKey::LeftBracket => {
                v.push(76u8);
                v.push(101u8);
                v.push(102u8);
                v.push(116u8);
                v.push(66u8);
                v.push(114u8);
                v.push(97u8);
                v.push(99u8);
                v.push(107u8);
                v.push(101u8);
                v.push(116u8);
                proof {
                    assert(v@ =~= seq![76u8, 101u8, 102u8, 116u8, 66u8, 114u8, 97u8, 99u8, 107u8, 101u8, 116u8]);
                }
            },
            LaneKey::RightBracket => {
                v.push(82u8);
                v.push(105u8);
                v.push(103u8);
                v.push(104u8);
                v.push(116u8);
                v.push(66u8);
                v.push(114u8);
                v.push(97u8);
                v.push(99u8);
                v.push(107u8);
                v.push(101u8);
                v.push(116u8);
                proof {
                    assert(v@ =~= seq![82u8, 105u8, 103u8, 104u8, 116u8, 66u8, 114u8, 97u8, 99u8, 107u8, 101u8, 116u8]);
                }
            },
        }
        v
    }
}

/// The key a persisted name denotes, if any.
pub open spec fn parse_keycode_spec(s: Seq<u8>) -> Result<LaneKey, ()> {
    if s == key_name_spec(LaneKey::A) {
        Ok(LaneKey::A)
    } else if s == key_name_spec(LaneKey::B) {
        Ok(LaneKey::B)
    } else if s == key_name_spec(LaneKey::C) {
        Ok(LaneKey::C)
    } else if s == key_name_spec(LaneKey::D) {
        Ok(LaneKey::D)
    } else if s == key_name_spec(LaneKey::E) {
        Ok(LaneKey::E)
    } else if s == key_name_spec(LaneKey::F) {
        Ok(LaneKey::F)
    } else if s == key_name_spec(LaneKey::G) {
        Ok(LaneKey::G)
    } else if s == key_name_spec(LaneKey::H) {
        Ok(LaneKey::H)
    } else if s == key_name_spec(LaneKey::I) {
        Ok(LaneKey::I)
    } else if s == key_name_spec(LaneKey::J) {
        Ok(LaneKey::J)
    } else if s == key_name_spec(LaneKey::K) {
        Ok(LaneKey::K)
    } else if s == key_name_spec(LaneKey::L) {
        Ok(LaneKey::L)
    } else if s == key_name_spec(LaneKey::M) {
        Ok(LaneKey::M)
    } else if s == key_name_spec(LaneKey::N) {
        Ok(LaneKey::N)
    } else if s == key_name_spec(LaneKey::O) {
        Ok(LaneKey::O)
    } else if s == key_name_spec(LaneKey::P) {
        Ok(LaneKey::P)
    } else if s == key_name_spec(LaneKey::Q) {
        Ok(LaneKey::Q)
    } else if s == key_name_spec(LaneKey::R) {
        Ok(LaneKey::R)
    } else if s == key_name_spec(LaneKey::S) {
        Ok(LaneKey::S)
    } else if s == key_name_spec(LaneKey::T) {
        Ok(LaneKey::T)
    } else if s == key_name_spec(LaneKey::U) {
        Ok(LaneKey::U)
    } else if s == key_name_spec(LaneKey::V) {
        Ok(LaneKey::V)
    } else if s == key_name_spec(LaneKey::W) {
        Ok(LaneKey::W)
    } else if s == key_name_spec(LaneKey::X) {
        Ok(LaneKey::X)
    } else if s == key_name_spec(LaneKey::Y) {
        Ok(LaneKey::Y)
    } else if s == key_name_spec(LaneKey::Z) {
        Ok(LaneKey::Z)
    } else if s == key_name_spec(LaneKey::Key0) {
        Ok(LaneKey::Key0)
    } else if s == key_name_spec(LaneKey::Key1) {
        Ok(LaneKey::Key1)
    } else if s == key_name_spec(LaneKey::Key2) {
        Ok(LaneKey::Key2)
    } else if s == key_name_spec(LaneKey::Key3) {
        Ok(LaneKey::Key3)
    } else if s == key_name_spec(LaneKey::Key4) {
        Ok(LaneKey::Key4)
    } else if s == key_name_spec(LaneKey::Key5) {
        Ok(LaneKey::Key5)
    } else if s == key_name_spec(LaneKey::Key6) {
        Ok(LaneKey::Key6)
    } else if s == key_name_spec(LaneKey::Key7) {
        Ok(LaneKey::Key7)
    } else if s == key_name_spec(LaneKey::Key8) {
        Ok(LaneKey::Key8)
    } else if s == key_name_spec(LaneKey::Key9) {
        Ok(LaneKey::Key9)
    } else if s == key_name_spec(LaneKey::Space) {
        Ok(LaneKey::Space)
    } else if s == key_name_spec(LaneKey::LeftShift) {
        Ok(LaneKey::LeftShift)
    } else if s == key_name_spec(LaneKey::RightShift) {
        Ok(LaneKey::RightShift)
    } else if s == key_name_spec(LaneKey::LeftControl) {
        Ok(LaneKey::LeftControl)
    } else if s == key_name_spec(LaneKey::RightControl) {
        Ok(LaneKey::RightControl)
    } else if s == key_name_spec(LaneKey::LeftAlt) {
        Ok(LaneKey::LeftAlt)
    } else if s == key_name_spec(LaneKey::RightAlt) {
        Ok(LaneKey::RightAlt)
    } else if s == key_name_spec(LaneKey::Comma) {
        Ok(LaneKey::Comma)
    } else if s == key_name_spec(LaneKey::Period) {
        Ok(LaneKey::Period)
    } else if s == key_name_spec(LaneKey::Slash) {
        Ok(LaneKey::Slash)
    } else if s == key_name_spec(LaneKey::Semicolon) {
        Ok(LaneKey::Semicolon)
    } else if s == key_name_spec(LaneKey::Apostrophe) {
        Ok(LaneKey::Apostrophe)
    } else if s == key_name_spec(LaneKey::LeftBracket) {
        Ok(LaneKey::LeftBracket)
    } else if s == key_name_spec(LaneKey::RightBracket) {
        Ok(LaneKey::RightBracket)
    } else {
        Err(())
    }
}

/// Parse a persisted key name.
pub fn parse_keycode(s: &[u8]) -> (r: Result<LaneKey, ()>)
    ensures
        r == parse_keycode_spec(s@),
{
    if bytes_eq(s, LaneKey::A.key_name().as_slice()) {
        Ok(LaneKey::A)
    } else if bytes_eq(s, LaneKey::B.key_name().as_slice()) {
        Ok(LaneKey::B)
    } else if bytes_eq(s, LaneKey::C.key_name().as_slice()) {
        Ok(LaneKey::C)
    } else if bytes_eq(s, LaneKey::D.key_name().as_slice()) {
        Ok(LaneKey::D)
    } else if bytes_eq(s, LaneKey::E.key_name().as_slice()) {
        Ok(LaneKey::E)
    } else if bytes_eq(s, LaneKey::F.key_name().as_slice()) {
        Ok(LaneKey::F)
    } else if bytes_eq(s, LaneKey::G.key_name().as_slice()) {
        Ok(LaneKey::G)
    } else if bytes_eq(s, LaneKey::H.key_name().as_slice()) {
        Ok(LaneKey::H)
    } else if bytes_eq(s, LaneKey::I.key_name().as_slice()) {
        Ok(LaneKey::I)
    } else if bytes_eq(s, LaneKey::J.key_name().as_slice()) {
        Ok(LaneKey::J)
    } else if bytes_eq(s, LaneKey::K.key_name().as_slice()) {
        Ok(LaneKey::K)
    } else if bytes_eq(s, LaneKey::L.key_name().as_slice()) {
        Ok(LaneKey::L)
    } else if bytes_eq(s, LaneKey::M.key_name().as_slice()) {
        Ok(LaneKey::M)
    } else if bytes_eq(s, LaneKey::N.key_name().as_slice()) {
        Ok(LaneKey::N)
    } else if bytes_eq(s, LaneKey::O.key_name().as_slice()) {
        Ok(LaneKey::O)
    } else if bytes_eq(s, LaneKey::P.key_name().as_slice()) {
        Ok(LaneKey::P)
    } else if bytes_eq(s, LaneKey::Q.key_name().as_slice()) {
        Ok(LaneKey::Q)
    } else if bytes_eq(s, LaneKey::R.key_name().as_slice()) {
        Ok(LaneKey::R)
    } else if bytes_eq(s, LaneKey::S.key_name().as_slice()) {
        Ok(LaneKey::S)
    } else if bytes_eq(s, LaneKey::T.key_name().as_slice()) {
        Ok(LaneKey::T)
    } else if bytes_eq(s, LaneKey::U.key_name().as_slice()) {
        Ok(LaneKey::U)
    } else if bytes_eq(s, LaneKey::V.key_name().as_slice()) {
        Ok(LaneKey::V)
    } else if bytes_eq(s, LaneKey::W.key_name().as_slice()) {
        Ok(LaneKey::W)
    } else if bytes_eq(s, LaneKey::X.key_name().as_slice()) {
        Ok(LaneKey::X)
    } else if bytes_eq(s, LaneKey::Y.key_name().as_slice()) {
        Ok(LaneKey::Y)
    } else if bytes_eq(s, LaneKey::Z.key_name().as_slice()) {
        Ok(LaneKey::Z)
    } else if bytes_eq(s, LaneKey::Key0.key_name().as_slice()) {
        Ok(LaneKey::Key0)
    } else if bytes_eq(s, LaneKey::Key1.key_name().as_slice()) {
        Ok(LaneKey::Key1)
    } else if bytes_eq(s, LaneKey::Key2.key_name().as_slice()) {
        Ok(LaneKey::Key2)
    } else if bytes_eq(s, LaneKey::Key3.key_name().as_slice()) {
        Ok(LaneKey::Key3)
    } else if bytes_eq(s, LaneKey::Key4.key_name().as_slice()) {
        Ok(LaneKey::Key4)
    } else if bytes_eq(s, LaneKey::Key5.key_name().as_slice()) {
        Ok(LaneKey::Key5)
    } else if bytes_eq(s, LaneKey::Key6.key_name().as_slice()) {
        Ok(LaneKey::Key6)
    } else if bytes_eq(s, LaneKey::Key7.key_name().as_slice()) {
        Ok(LaneKey::Key7)
    } else if bytes_eq(s, LaneKey::Key8.key_name().as_slice()) {
        Ok(LaneKey::Key8)
    } else if bytes_eq(s, LaneKey::Key9.key_name().as_slice()) {
        Ok(LaneKey::Key9)
    } else if bytes_eq(s, LaneKey::Space.key_name().as_slice()) {
        Ok(LaneKey::Space)
    } else if bytes_eq(s, LaneKey::LeftShift.key_name().as_slice()) {
        Ok(LaneKey::LeftShift)
    } else if bytes_eq(s, LaneKey::RightShift.key_name().as_slice()) {
        Ok(LaneKey::RightShift)
    } else if bytes_eq(s, LaneKey::LeftControl.key_name().as_slice()) {
        Ok(LaneKey::LeftControl)
    } else if bytes_eq(s, LaneKey::RightControl.key_name().as_slice()) {
        Ok(LaneKey::RightControl)
    } else if bytes_eq(s, LaneKey::LeftAlt.key_name().as_slice()) {
        Ok(LaneKey::LeftAlt)
    } else if bytes_eq(s, LaneKey::RightAlt.key_name().as_slice()) {
        Ok(LaneKey::RightAlt)
    } else if bytes_eq(s, LaneKey::Comma.key_name().as_slice()) {
        Ok(LaneKey::Comma)
    } else if bytes_eq(s, LaneKey::Period.key_name().as_slice()) {
        Ok(LaneKey::Period)
    } else if bytes_eq(s, LaneKey::Slash.key_name().as_slice()) {
        Ok(LaneKey::Slash)
    } else if bytes_eq(s, LaneKey::Semicolon.key_name().as_slice()) {
        Ok(LaneKey::Semicolon)
    } else if bytes_eq(s, LaneKey::Apostrophe.key_name().as_slice()) {
        Ok(LaneKey::Apostrophe)
    } else if bytes_eq(s, LaneKey::LeftBracket.key_name().as_slice()) {
        Ok(LaneKey::LeftBracket)
    } else if bytes_eq(s, LaneKey::RightBracket.key_name().as_slice()) {
        Ok(LaneKey::RightBracket)
    } else {
        Err(())
    }
}

/// The textual mapping is two-way: parsing a key's own name gives the key
/// back.
#[verifier::rlimit(60)]
pub proof fn lemma_key_name_round_trip(k: LaneKey)
    ensures
        parse_keycode_spec(key_name_spec(k)) == Ok::<LaneKey, ()>(k),
{
    // Length, first byte and last byte tell all the names apart, so the
    // chain in `parse_keycode_spec` can only stop at `k`'s own entry.
    assert(key_name_spec(LaneKey::A).len() == 1);
    assert(key_name_spec(LaneKey::A)[0] == 65u8);
    assert(key_name_spec(LaneKey::B).len() == 1);
    assert(key_name_spec(LaneKey::B)[0] == 66u8);
    assert(key_name_spec(LaneKey::C).len() == 1);
    assert(key_name_spec(LaneKey::C)[0] == 67u8);
    assert(key_name_spec(LaneKey::D).len() == 1);
    assert(key_name_spec(LaneKey::D)[0] == 68u8);
    assert(key_name_spec(LaneKey::E).len() == 1);
    assert(key_name_spec(LaneKey::E)[0] == 69u8);
    assert(key_name_spec(LaneKey::F).len() == 1);
    assert(key_name_spec(LaneKey::F)[0] == 70u8);
    assert(key_name_spec(LaneKey::G).len() == 1);
    assert(key_name_spec(LaneKey::G)[0] == 71u8);
    assert(key_name_spec(LaneKey::H).len() == 1);
    assert(key_name_spec(LaneKey::H)[0] == 72u8);
    assert(key_name_spec(LaneKey::I).len() == 1);
    assert(key_name_spec(LaneKey::I)[0] == 73u8);
    assert(key_name_spec(LaneKey::J).len() == 1);
    assert(key_name_spec(LaneKey::J)[0] == 74u8);
    assert(key_name_spec(LaneKey::K).len() == 1);
    assert(key_name_spec(LaneKey::K)[0] == 75u8);
    assert(key_name_spec(LaneKey::L).len() == 1);
    assert(key_name_spec(LaneKey::L)[0] == 76u8);
    assert(key_name_spec(LaneKey::M).len() == 1);
    assert(key_name_spec(LaneKey::M)[0] == 77u8);
    assert(key_name_spec(LaneKey::N).len() == 1);
    assert(key_name_spec(LaneKey::N)[0] == 78u8);
    assert(key_name_spec(LaneKey::O).len() == 1);
    assert(key_name_spec(LaneKey::O)[0] == 79u8);
    assert(key_name_spec(LaneKey::P).len() == 1);
    assert(key_name_spec(LaneKey::P)[0] == 80u8);
    assert(key_name_spec(LaneKey::Q).len() == 1);
    assert(key_name_spec(LaneKey::Q)[0] == 81u8);
    assert(key_name_spec(LaneKey::R).len() == 1);
    assert(key_name_spec(LaneKey::R)[0] == 82u8);
    assert(key_name_spec(LaneKey::S).len() == 1);
    assert(key_name_spec(LaneKey::S)[0] == 83u8);
    assert(key_name_spec(LaneKey::T).len() == 1);
    assert(key_name_spec(LaneKey::T)[0] == 84u8);
    assert(key_name_spec(LaneKey::U).len() == 1);
    assert(key_name_spec(LaneKey::U)[0] == 85u8);
    assert(key_name_spec(LaneKey::V).len() == 1);
    assert(key_name_spec(LaneKey::V)[0] == 86u8);
    assert(key_name_spec(LaneKey::W).len() == 1);
    assert(key_name_spec(LaneKey::W)[0] == 87u8);
    assert(key_name_spec(LaneKey::X).len() == 1);
    assert(key_name_spec(LaneKey::X)[0] == 88u8);
    assert(key_name_spec(LaneKey::Y).len() == 1);
    assert(key_name_spec(LaneKey::Y)[0] == 89u8);
    assert(key_name_spec(LaneKey::Z).len() == 1);
    assert(key_name_spec(LaneKey::Z)[0] == 90u8);
    assert(key_name_spec(LaneKey::Key0).len() == 4);
    assert(key_name_spec(LaneKey::Key0)[0] == 75u8);
    assert(key_name_spec(LaneKey::Key0)[3] == 48u8);
    assert(key_name_spec(LaneKey::Key1).len() == 4);
    assert(key_name_spec(LaneKey::Key1)[0] == 75u8);
    assert(key_name_spec(LaneKey::Key1)[3] == 49u8);
    assert(key_name_spec(LaneKey::Key2).len() == 4);
    assert(key_name_spec(LaneKey::Key2)[0] == 75u8);
    assert(key_name_spec(LaneKey::Key2)[3] == 50u8);
    assert(key_name_spec(LaneKey::Key3).len() == 4);
    assert(key_name_spec(LaneKey::Key3)[0] == 75u8);
    assert(key_name_spec(LaneKey::Key3)[3] == 51u8);
    assert(key_name_spec(LaneKey::Key4).len() == 4);
    assert(key_name_spec(LaneKey::Key4)[0] == 75u8);
    assert(key_name_spec(LaneKey::Key4)[3] == 52u8);
    assert(key_name_spec(LaneKey::Key5).len() == 4);
    assert(key_name_spec(LaneKey::Key5)[0] == 75u8);
    assert(key_name_spec(LaneKey::Key5)[3] == 53u8);
    assert(key_name_spec(LaneKey::Key6).len() == 4);
    assert(key_name_spec(LaneKey::Key6)[0] == 75u8);
    assert(key_name_spec(LaneKey::Key6)[3] == 54u8);
    assert(key_name_spec(LaneKey::Key7).len() == 4);
    assert(key_name_spec(LaneKey::Key7)[0] == 75u8);
    assert(key_name_spec(LaneKey::Key7)[3] == 55u8);
    assert(key_name_spec(LaneKey::Key8).len() == 4);
    assert(key_name_spec(LaneKey::Key8)[0] == 75u8);
    assert(key_name_spec(LaneKey::Key8)[3] == 56u8);
    assert(key_name_spec(LaneKey::Key9).len() == 4);
    assert(key_name_spec(LaneKey::Key9)[0] == 75u8);
    assert(key_name_spec(LaneKey::Key9)[3] == 57u8);
    assert(key_name_spec(LaneKey::Space).len() == 5);
    assert(key_name_spec(LaneKey::Space)[0] == 83u8);
    assert(key_name_spec(LaneKey::Space)[4] == 101u8);
    assert(key_name_spec(LaneKey::LeftShift).len() == 9);
    assert(key_name_spec(LaneKey::LeftShift)[0] == 76u8);
    assert(key_name_spec(LaneKey::LeftShift)[8] == 116u8);
    assert(key_name_spec(LaneKey::RightShift).len() == 10);
    assert(key_name_spec(LaneKey::RightShift)[0] == 82u8);
    assert(key_name_spec(LaneKey::RightShift)[9] == 116u8);
    assert(key_name_spec(LaneKey::LeftControl).len() == 11);
    assert(key_name_spec(LaneKey::LeftControl)[0] == 76u8);
    assert(key_name_spec(LaneKey::LeftControl)[10] == 108u8);
    assert(key_name_spec(LaneKey::RightControl).len() == 12);
    assert(key_name_spec(LaneKey::RightControl)[0] == 82u8);
    assert(key_name_spec(LaneKey::RightControl)[11] == 108u8);
    assert(key_name_spec(LaneKey::LeftAlt).len() == 7);
    assert(key_name_spec(LaneKey::LeftAlt)[0] == 76u8);
    assert(key_name_spec(LaneKey::LeftAlt)[6] == 116u8);
    assert(key_name_spec(LaneKey::RightAlt).len() == 8);
    assert(key_name_spec(LaneKey::RightAlt)[0] == 82u8);
    assert(key_name_spec(LaneKey::RightAlt)[7] == 116u8);
    assert(key_name_spec(LaneKey::Comma).len() == 5);
    assert(key_name_spec(LaneKey::Comma)[0] == 67u8);
    assert(key_name_spec(LaneKey::Comma)[4] == 97u8);
    assert(key_name_spec(LaneKey::Period).len() == 6);
    assert(key_name_spec(LaneKey::Period)[0] == 80u8);
    assert(key_name_spec(LaneKey::Period)[5] == 100u8);
    assert(key_name_spec(LaneKey::Slash).len() == 5);
    assert(key_name_spec(LaneKey::Slash)[0] == 83u8);
    assert(key_name_spec(LaneKey::Slash)[4] == 104u8);
    assert(key_name_spec(LaneKey::Semicolon).len() == 9);
    assert(key_name_spec(LaneKey::Semicolon)[0] == 83u8);
    assert(key_name_spec(LaneKey::Semicolon)[8] == 110u8);
    assert(key_name_spec(LaneKey::Apostrophe).len() == 10);
    assert(key_name_spec(LaneKey::Apostrophe)[0] == 65u8);
    assert(key_name_spec(LaneKey::Apostrophe)[9] == 101u8);
    assert(key_name_spec(LaneKey::LeftBracket).len() == 11);
    assert(key_name_spec(LaneKey::LeftBracket)[0] == 76u8);
    assert(key_name_spec(LaneKey::LeftBracket)[10] == 116u8);
    assert(key_name_spec(LaneKey::RightBracket).len() == 12);
    assert(key_name_spec(LaneKey::RightBracket)[0] == 82u8);
    assert(key_name_spec(LaneKey::RightBracket)[11] == 116u8);
}

/// Key names hold letters and digits alone: no whitespace, no separator
/// byte of either file format.
pub open spec fn is_name_byte(b: u8) -> bool {
    (48 <= b <= 57) || (65 <= b <= 90) || (97 <= b <= 122)
}

pub proof fn lemma_key_name_bytes(k: LaneKey)
    ensures
        key_name_spec(k).len() > 0,
        forall|i: int|
            0 <= i < key_name_spec(k).len() ==> is_name_byte(#[trigger] key_name_spec(k)[i]),
{
    match k {
        _ => {},
    }
}

/// The mathematical image of the options.
pub ghost struct OptModel {
    pub key_2k: Seq<LaneKey>,
    pub key_4k: Seq<LaneKey>,
    pub reverse_mode: bool,
    pub scroll_speed: i32,
}

/// Player options: lane key bindings for the two modes, the scroll
/// direction, and the scroll speed (held in 1 to 40).
pub struct GameOptions {
    pub keys_2k: [LaneKey; 2],
    pub keys_4k: [LaneKey; 4],
    pub reverse_mode: bool,
    pub scroll_speed: i32,
}

impl View for GameOptions {
    type V = OptModel;

    open spec fn view(&self) -> OptModel {
        OptModel {
            key_2k: self.keys_2k@,
            key_4k: self.keys_4k@,
            reverse_mode: self.reverse_mode,
            scroll_speed: self.scroll_speed,
        }
    }
}

pub open spec fn default_model() -> OptModel {
    OptModel {
        key_2k: seq![LaneKey::D, LaneKey::K],
        key_4k: seq![LaneKey::D, LaneKey::F, LaneKey::J, LaneKey::K],
        reverse_mode: false,
        scroll_speed: 20,
    }
}

impl Default for GameOptions {
    /// D and K for two lanes; D, F, J, K for four; normal scroll at speed
    /// twenty.
    fn default() -> (r: GameOptions)
        ensures
            r@ == default_model(),
            1 <= r.scroll_speed <= 40,
    {
        let r = GameOptions {
            keys_2k: [LaneKey::D, LaneKey::K],
            keys_4k: [LaneKey::D, LaneKey::F, LaneKey::J, LaneKey::K],
            reverse_mode: false,
            scroll_speed: 20,
        };
        proof {
            assert(r.keys_2k@ =~= seq![LaneKey::D, LaneKey::K]);
            assert(r.keys_4k@ =~= seq![LaneKey::D, LaneKey::F, LaneKey::J, LaneKey::K]);
        }
        r
    }
}

/// Speeds outside the documented 1 to 40 range are pulled back in.
pub open spec fn clamp_speed(v: i32) -> i32 {
    if v < 1 {
        1
    } else if v > 40 {
        40
    } else {
        v
    }
}

/// One `key=value` line of the options file.  Unknown keys, malformed
/// values and lines without exactly one `=` are ignored.
pub open spec fn opts_step(m: OptModel, line: Seq<u8>) -> OptModel {
    let parts = split_spec(line, 61);
    if parts.len() != 2 {
        m
    } else {
        let key = trim_spec(parts[0]);
        let value = trim_spec(parts[1]);
        if key == ("reverse_mode").spec_bytes() {
            OptModel { reverse_mode: value == ("true").spec_bytes(), ..m }
        } else if key == ("key_2k_0").spec_bytes() {
            match parse_keycode_spec(value) {
                Ok(k) => OptModel { key_2k: m.key_2k.update(0, k), ..m },
                Err(_) => m,
            }
        } else if key == ("key_2k_1").spec_bytes() {
            match parse_keycode_spec(value) {
                Ok(k) => OptModel { key_2k: m.key_2k.update(1, k), ..m },
                Err(_) => m,
            }
        } else if key == ("key_4k_0").spec_bytes() {
            match parse_keycode_spec(value) {
                Ok(k) => OptModel { key_4k: m.key_4k.update(0, k), ..m },
                Err(_) => m,
            }
        } else if key == ("key_4k_1").spec_bytes() {
            match parse_keycode_spec(value) {
                Ok(k) => OptModel { key_4k: m.key_4k.update(1, k), ..m },
                Err(_) => m,
            }
        } else if key == ("key_4k_2").spec_bytes() {
            match parse_keycode_spec(value) {
                Ok(k) => OptModel { key_4k: m.key_4k.update(2, k), ..m },
                Err(_) => m,
            }
        } else if key == ("key_4k_3").spec_bytes() {
            match parse_keycode_spec(value) {
                Ok(k) => OptModel { key_4k: m.key_4k.update(3, k), ..m },
                Err(_) => m,
            }
        } else if key == ("scroll_speed").spec_bytes() {
            match parse_i32_spec(value) {
                Some(v) => OptModel { scroll_speed: clamp_speed(v), ..m },
                None => m,
            }
        } else {
            m
        }
    }
}

pub open spec fn opts_scan(ls: Seq<Seq<u8>>, i: int, m: OptModel) -> OptModel
    decreases ls.len() - i,
{
    if i < 0 || i >= ls.len() {
        m
    } else {
        opts_scan(ls, i + 1, opts_step(m, ls[i]))
    }
}

/// The options an options file denotes, starting from the defaults.
pub open spec fn from_config_spec(content: Seq<u8>) -> OptModel {
    opts_scan(split_spec(content, 10), 0, default_model())
}

impl GameOptions {
    /// Read options from the persisted `key=value` text; anything missing
    /// or malformed keeps its default.
    #[verifier::rlimit(100)]
    pub fn from_config_text(content: &[u8]) -> (r: GameOptions)
        requires
            content@.len() < usize::MAX,
        ensures
            r@ == from_config_spec(content@),
            1 <= r.scroll_speed <= 40,
    {
        let lines = split_on(content, 10);
        let ghost ls = split_spec(content@, 10);
        proof {
            crate::text::lemma_split_piece_len(content@, 10);
            assert(forall|i: int| 0 <= i < lines@.len() ==> (#[trigger] lines@[i])@ == ls[i]);
            assert(seq![LaneKey::D, LaneKey::K] =~= default_model().key_2k);
            assert(seq![LaneKey::D, LaneKey::F, LaneKey::J, LaneKey::K]
                =~= default_model().key_4k);
        }
        let mut rev = false;
        let mut speed: i32 = 20;
        let mut k20 = LaneKey::D;
        let mut k21 = LaneKey::K;
        let mut k40 = LaneKey::D;
        let mut k41 = LaneKey::F;
        let mut k42 = LaneKey::J;
        let mut k43 = LaneKey::K;
        let mut idx: usize = 0;
        while idx < lines.len()
            invariant
                content@.len() < usize::MAX,
                ls == split_spec(content@, 10),
                lines@.len() == ls.len(),
                forall|i: int| 0 <= i < lines@.len() ==> (#[trigger] lines@[i])@ == ls[i],
                forall|i: int| 0 <= i < ls.len() ==> (#[trigger] ls[i]).len() <= content@.len(),
                0 <= idx <= lines@.len(),
                1 <= speed <= 40,
                opts_scan(ls, 0, default_model()) == opts_scan(
                    ls,
                    idx as int,
                    OptModel {
                        key_2k: seq![k20, k21],
                        key_4k: seq![k40, k41, k42, k43],
                        reverse_mode: rev,
                        scroll_speed: speed,
                    },
                ),
            decreases lines@.len() - idx,
        {
            let ghost m0 = OptModel {
                key_2k: seq![k20, k21],
                key_4k: seq![k40, k41, k42, k43],
                reverse_mode: rev,
                scroll_speed: speed,
            };
            proof {
                assert(lines@[idx as int]@ == ls[idx as int]);
            }
            let parts = split_on(lines[idx].as_slice(), 61);
            if parts.len() == 2 {
                proof {
                    let ps = parts@.map_values(|v: Vec<u8>| v@);
                    assert(ps[0] == parts@[0]@);
                    assert(ps[1] == parts@[1]@);
                }
                let key = trim(parts[0].as_slice());
                let value = trim(parts[1].as_slice());
                if bytes_eq(key.as_slice(), "reverse_mode".as_bytes()) {
                    rev = bytes_eq(value.as_slice(), "true".as_bytes());
                } else if bytes_eq(key.as_slice(), "key_2k_0".as_bytes()) {
                    match parse_keycode(value.as_slice()) {
                        Ok(k) => {
                            k20 = k;
                            proof {
                                assert(seq![k20, k21] =~= m0.key_2k.update(0, k));
                            }
                        },
                        Err(_) => {},
                    }
                } else if bytes_eq(key.as_slice(), "key_2k_1".as_bytes()) {
                    match parse_keycode(value.as_slice()) {
                        Ok(k) => {
                            k21 = k;
                            proof {
                                assert(seq![k20, k21] =~= m0.key_2k.update(1, k));
                            }
                        },
                        Err(_) => {},
                    }
                } else if bytes_eq(key.as_slice(), "key_4k_0".as_bytes()) {
                    match parse_keycode(value.as_slice()) {
                        Ok(k) => {
                            k40 = k;
                            proof {
                                assert(seq![k40, k41, k42, k43] =~= m0.key_4k.update(0, k));
                            }
                        },
                        Err(_) => {},
                    }
                } else if bytes_eq(key.as_slice(), "key_4k_1".as_bytes()) {
                    match parse_keycode(value.as_slice()) {
                        Ok(k) => {
                            k41 = k;
                            proof {
                                assert(seq![k40, k41, k42, k43] =~= m0.key_4k.update(1, k));
                            }
                        },
                        Err(_) => {},
                    }
                } else if bytes_eq(key.as_slice(), "key_4k_2".as_bytes()) {
                    match parse_keycode(value.as_slice()) {
                        Ok(k) => {
                            k42 = k;
                            proof {
                                assert(seq![k40, k41, k42, k43] =~= m0.key_4k.update(2, k));
                            }
                        },
                        Err(_) => {},
                    }
                } else if bytes_eq(key.as_slice(), "key_4k_3".as_bytes()) {
                    match parse_keycode(value.as_slice()) {
                        Ok(k) => {
                            k43 = k;
                            proof {
                                assert(seq![k40, k41, k42, k43] =~= m0.key_4k.update(3, k));
                            }
                        },
                        Err(_) => {},
                    }
                } else if bytes_eq(key.as_slice(), "scroll_speed".as_bytes()) {
                    match parse_i32(value.as_slice()) {
                        Some(v) => {
                            speed = if v < 1 {
                                1
                            } else if v > 40 {
                                40
                            } else {
                                v
                            };
                        },
                        None => {},
                    }
                }
            }
            proof {
                assert(OptModel {
                    key_2k: seq![k20, k21],
                    key_4k: seq![k40, k41, k42, k43],
                    reverse_mode: rev,
                    scroll_speed: speed,
                } == opts_step(m0, ls[idx as int]));
            }
            idx = idx + 1;
        }
        let r = GameOptions {
            keys_2k: [k20, k21],
            keys_4k: [k40, k41, k42, k43],
            reverse_mode: rev,
            scroll_speed: speed,
        };
        proof {
            assert(r.keys_2k@ =~= seq![k20, k21]);
            assert(r.keys_4k@ =~= seq![k40, k41, k42, k43]);
        }
        r
    }
}

/// `true` or `false`, as persisted.
pub open spec fn bool_bytes(b: bool) -> Seq<u8> {
    if b {
        ("true").spec_bytes()
    } else {
        ("false").spec_bytes()
    }
}

/// The one- or two-digit decimal form of a speed in 1 to 40.
pub open spec fn speed_bytes(s: i32) -> Seq<u8> {
    if s < 10 {
        seq![(48 + s) as u8]
    } else {
        seq![(48 + s / 10) as u8, (48 + s % 10) as u8]
    }
}

/// The full persisted form of the options.
pub open spec fn config_text_spec(m: OptModel) -> Seq<u8> {
    ("reverse_mode=").spec_bytes() + bool_bytes(m.reverse_mode) + seq![10u8] + (
    "key_2k_0=").spec_bytes() + key_name_spec(m.key_2k[0]) + seq![10u8] + (
    "key_2k_1=").spec_bytes() + key_name_spec(m.key_2k[1]) + seq![10u8] + (
    "key_4k_0=").spec_bytes() + key_name_spec(m.key_4k[0]) + seq![10u8] + (
    "key_4k_1=").spec_bytes() + key_name_spec(m.key_4k[1]) + seq![10u8] + (
    "key_4k_2=").spec_bytes() + key_name_spec(m.key_4k[2]) + seq![10u8] + (
    "key_4k_3=").spec_bytes() + key_name_spec(m.key_4k[3]) + seq![10u8] + (
    "scroll_speed=").spec_bytes() + speed_bytes(m.scroll_speed) + seq![10u8]
}

impl GameOptions {
    /// Write the options in their persisted `key=value` form.
    #[verifier::rlimit(100)]
    pub fn to_config_text(&self) -> (r: Vec<u8>)
        requires
            1 <= self.scroll_speed <= 40,
        ensures
            r@ == config_text_spec(self@),
    {
        let mut out: Vec<u8> = Vec::new();
        push_bytes(&mut out, "reverse_mode=".as_bytes());
        if self.reverse_mode {
            push_bytes(&mut out, "true".as_bytes());
        } else {
            push_bytes(&mut out, "false".as_bytes());
        }
        out.push(10u8);
        push_bytes(&mut out, "key_2k_0=".as_bytes());
        let n = self.keys_2k[0].key_name();
        push_bytes(&mut out, n.as_slice());
        out.push(10u8);
        push_bytes(&mut out, "key_2k_1=".as_bytes());
        let n = self.keys_2k[1].key_name();
        push_bytes(&mut out, n.as_slice());
        out.push(10u8);
        push_bytes(&mut out, "key_4k_0=".as_bytes());
        let n = self.keys_4k[0].key_name();
        push_bytes(&mut out, n.as_slice());
        out.push(10u8);
        push_bytes(&mut out, "key_4k_1=".as_bytes());
        let n = self.keys_4k[1].key_name();
        push_bytes(&mut out, n.as_slice());
        out.push(10u8);
        push_bytes(&mut out, "key_4k_2=".as_bytes());
        let n = self.keys_4k[2].key_name();
        push_bytes(&mut out, n.as_slice());
        out.push(10u8);
        push_bytes(&mut out, "key_4k_3=".as_bytes());
        let n = self.keys_4k[3].key_name();
        push_bytes(&mut out, n.as_slice());
        out.push(10u8);
        push_bytes(&mut out, "scroll_speed=".as_bytes());
        if self.scroll_speed < 10 {
            out.push((48 + self.scroll_speed) as u8);
        } else {
            out.push((48 + self.scroll_speed / 10) as u8);
            out.push((48 + self.scroll_speed % 10) as u8);
        }
        out.push(10u8);
        proof {
            assert(out@ =~= config_text_spec(self@));
        }
        out
    }
}


/// For 1 to 40, the written speed reads back as itself, and its bytes are
/// plain digits.
pub proof fn lemma_speed_bytes(s: i32)
    requires
        1 <= s <= 40,
    ensures
        parse_i32_spec(speed_bytes(s)) == Some(s),
        forall|i: int|
            0 <= i < speed_bytes(s).len() ==> 48 <= #[trigger] speed_bytes(s)[i] <= 57,
{
    let t = speed_bytes(s);
    if s < 10 {
        assert(t =~= seq![(48 + s) as u8]);
        assert(t.drop_last() =~= Seq::<u8>::empty());
        assert(crate::decimal::digits_val(Seq::<u8>::empty()) == 0);
        assert(crate::decimal::digits_val(t) == s);
    } else {
        assert(t =~= seq![(48 + s / 10) as u8, (48 + s % 10) as u8]);
        assert(t.drop_last() =~= seq![(48 + s / 10) as u8]);
        assert(t.drop_last().drop_last() =~= Seq::<u8>::empty());
        assert(crate::decimal::digits_val(Seq::<u8>::empty()) == 0);
        assert(crate::decimal::digits_val(t.drop_last()) == s / 10);
        assert(crate::decimal::digits_val(t) == (s / 10) * 10 + s % 10);
        assert((s / 10) * 10 + s % 10 == s) by {
            vstd::arithmetic::div_mod::lemma_fundamental_div_mod(s as int, 10);
        }
    }
    assert(crate::decimal::all_digits(t));
}

/// One `key=value` line splits into exactly its trimmed key and value when
/// neither holds a separator or whitespace.
pub proof fn lemma_kv_line(k: Seq<u8>, v: Seq<u8>)
    requires
        forall|i: int|
            0 <= i < k.len() ==> (#[trigger] k[i]) != 61 && !crate::text::is_space(k[i]),
        forall|i: int|
            0 <= i < v.len() ==> (#[trigger] v[i]) != 61 && !crate::text::is_space(v[i]),
    ensures
        split_spec(k + seq![61u8] + v, 61) == seq![k, v],
        trim_spec(k) == k,
        trim_spec(v) == v,
{
    crate::text::lemma_split_prefix(k, v, 61);
    crate::text::lemma_split_whole(v, 61);
    assert(seq![k] + seq![v] =~= seq![k, v]);
    crate::text::lemma_trim_id(k);
    crate::text::lemma_trim_id(v);
}

/// Byte-level facts about the option file's literal parts: no newline,
/// separator or whitespace inside them, and the bytes that tell the keys
/// apart.
#[verifier::rlimit(100)]
pub proof fn lemma_option_literal_bytes()
    ensures
        forall|i: int| #![trigger ("reverse_mode").spec_bytes()[i]]
            0 <= i < ("reverse_mode").spec_bytes().len() ==> ("reverse_mode").spec_bytes()[i] != 10u8 && (
        "reverse_mode").spec_bytes()[i] != 61u8 && !crate::text::is_space(("reverse_mode").spec_bytes()[i]),
        forall|i: int| #![trigger ("key_2k_0").spec_bytes()[i]]
            0 <= i < ("key_2k_0").spec_bytes().len() ==> ("key_2k_0").spec_bytes()[i] != 10u8 && (
        "key_2k_0").spec_bytes()[i] != 61u8 && !crate::text::is_space(("key_2k_0").spec_bytes()[i]),
        forall|i: int| #![trigger ("key_2k_1").spec_bytes()[i]]
            0 <= i < ("key_2k_1").spec_bytes().len() ==> ("key_2k_1").spec_bytes()[i] != 10u8 && (
        "key_2k_1").spec_bytes()[i] != 61u8 && !crate::text::is_space(("key_2k_1").spec_bytes()[i]),
        forall|i: int| #![trigger ("key_4k_0").spec_bytes()[i]]
            0 <= i < ("key_4k_0").spec_bytes().len() ==> ("key_4k_0").spec_bytes()[i] != 10u8 && (
        "key_4k_0").spec_bytes()[i] != 61u8 && !crate::text::is_space(("key_4k_0").spec_bytes()[i]),
        forall|i: int| #![trigger ("key_4k_1").spec_bytes()[i]]
            0 <= i < ("key_4k_1").spec_bytes().len() ==> ("key_4k_1").spec_bytes()[i] != 10u8 && (
        "key_4k_1").spec_bytes()[i] != 61u8 && !crate::text::is_space(("key_4k_1").spec_bytes()[i]),
        forall|i: int| #![trigger ("key_4k_2").spec_bytes()[i]]
            0 <= i < ("key_4k_2").spec_bytes().len() ==> ("key_4k_2").spec_bytes()[i] != 10u8 && (
        "key_4k_2").spec_bytes()[i] != 61u8 && !crate::text::is_space(("key_4k_2").spec_bytes()[i]),
        forall|i: int| #![trigger ("key_4k_3").spec_bytes()[i]]
            0 <= i < ("key_4k_3").spec_bytes().len() ==> ("key_4k_3").spec_bytes()[i] != 10u8 && (
        "key_4k_3").spec_bytes()[i] != 61u8 && !crate::text::is_space(("key_4k_3").spec_bytes()[i]),
        forall|i: int| #![trigger ("scroll_speed").spec_bytes()[i]]
            0 <= i < ("scroll_speed").spec_bytes().len() ==> ("scroll_speed").spec_bytes()[i] != 10u8 && (
        "scroll_speed").spec_bytes()[i] != 61u8 && !crate::text::is_space(("scroll_speed").spec_bytes()[i]),
        forall|i: int| #![trigger ("true").spec_bytes()[i]]
            0 <= i < ("true").spec_bytes().len() ==> ("true").spec_bytes()[i] != 10u8 && (
        "true").spec_bytes()[i] != 61u8 && !crate::text::is_space(("true").spec_bytes()[i]),
        forall|i: int| #![trigger ("false").spec_bytes()[i]]
            0 <= i < ("false").spec_bytes().len() ==> ("false").spec_bytes()[i] != 10u8 && (
        "false").spec_bytes()[i] != 61u8 && !crate::text::is_space(("false").spec_bytes()[i]),
        ("reverse_mode=").spec_bytes() == ("reverse_mode").spec_bytes() + seq![61u8],
        ("key_2k_0=").spec_bytes() == ("key_2k_0").spec_bytes() + seq![61u8],
        ("key_2k_1=").spec_bytes() == ("key_2k_1").spec_bytes() + seq![61u8],
        ("key_4k_0=").spec_bytes() == ("key_4k_0").spec_bytes() + seq![61u8],
        ("key_4k_1=").spec_bytes() == ("key_4k_1").spec_bytes() + seq![61u8],
        ("key_4k_2=").spec_bytes() == ("key_4k_2").spec_bytes() + seq![61u8],
        ("key_4k_3=").spec_bytes() == ("key_4k_3").spec_bytes() + seq![61u8],
        ("scroll_speed=").spec_bytes() == ("scroll_speed").spec_bytes() + seq![61u8],
        ("reverse_mode").spec_bytes().len() == 12,
        ("reverse_mode").spec_bytes()[0] == 114u8,
        ("key_2k_0").spec_bytes().len() == 8,
        ("key_2k_0").spec_bytes()[0] == 107u8,
        ("key_2k_0").spec_bytes()[4] == 50u8,
        ("key_2k_0").spec_bytes()[7] == 48u8,
        ("key_2k_1").spec_bytes().len() == 8,
        ("key_2k_1").spec_bytes()[0] == 107u8,
        ("key_2k_1").spec_bytes()[4] == 50u8,
        ("key_2k_1").spec_bytes()[7] == 49u8,
        ("key_4k_0").spec_bytes().len() == 8,
        ("key_4k_0").spec_bytes()[0] == 107u8,
        ("key_4k_0").spec_bytes()[4] == 52u8,
        ("key_4k_0").spec_bytes()[7] == 48u8,
        ("key_4k_1").spec_bytes().len() == 8,
        ("key_4k_1").spec_bytes()[0] == 107u8,
        ("key_4k_1").spec_bytes()[4] == 52u8,
        ("key_4k_1").spec_bytes()[7] == 49u8,
        ("key_4k_2").spec_bytes().len() == 8,
        ("key_4k_2").spec_bytes()[0] == 107u8,
        ("key_4k_2").spec_bytes()[4] == 52u8,
        ("key_4k_2").spec_bytes()[7] == 50u8,
        ("key_4k_3").spec_bytes().len() == 8,
        ("key_4k_3").spec_bytes()[0] == 107u8,
        ("key_4k_3").spec_bytes()[4] == 52u8,
        ("key_4k_3").spec_bytes()[7] == 51u8,
        ("scroll_speed").spec_bytes().len() == 12,
        ("scroll_speed").spec_bytes()[0] == 115u8,
        ("true").spec_bytes().len() == 4,
        ("false").spec_bytes().len() == 5,
{
    broadcast use vstd::string::is_ascii_spec_bytes;

    reveal_strlit("reverse_mode=");
    reveal_strlit("reverse_mode");
    reveal_strlit("key_2k_0=");
    reveal_strlit("key_2k_0");
    reveal_strlit("key_2k_1=");
    reveal_strlit("key_2k_1");
    reveal_strlit("key_4k_0=");
    reveal_strlit("key_4k_0");
    reveal_strlit("key_4k_1=");
    reveal_strlit("key_4k_1");
    reveal_strlit("key_4k_2=");
    reveal_strlit("key_4k_2");
    reveal_strlit("key_4k_3=");
    reveal_strlit("key_4k_3");
    reveal_strlit("scroll_speed=");
    reveal_strlit("scroll_speed");
    reveal_strlit("true");
    reveal_strlit("false");
    assert(is_ascii("reverse_mode=") && is_ascii("reverse_mode"));
    assert(is_ascii("key_2k_0=") && is_ascii("key_2k_0"));
    assert(is_ascii("key_2k_1=") && is_ascii("key_2k_1"));
    assert(is_ascii("key_4k_0=") && is_ascii("key_4k_0"));
    assert(is_ascii("key_4k_1=") && is_ascii("key_4k_1"));
    assert(is_ascii("key_4k_2=") && is_ascii("key_4k_2"));
    assert(is_ascii("key_4k_3=") && is_ascii("key_4k_3"));
    assert(is_ascii("scroll_speed=") && is_ascii("scroll_speed"));
    assert(is_ascii("true") && is_ascii("false"));
    assert forall|i: int| #![trigger ("reverse_mode").spec_bytes()[i]]
        0 <= i < ("reverse_mode").spec_bytes().len() implies ("reverse_mode").spec_bytes()[i] != 10u8 && (
    "reverse_mode").spec_bytes()[i] != 61u8 && !crate::text::is_space(("reverse_mode").spec_bytes()[i]) by {
        assert(("reverse_mode").spec_bytes()[i] == ("reverse_mode")@[i] as u8);
    }
    assert forall|i: int| #![trigger ("key_2k_0").spec_bytes()[i]]
        0 <= i < ("key_2k_0").spec_bytes().len() implies ("key_2k_0").spec_bytes()[i] != 10u8 && (
    "key_2k_0").spec_bytes()[i] != 61u8 && !crate::text::is_space(("key_2k_0").spec_bytes()[i]) by {
        assert(("key_2k_0").spec_bytes()[i] == ("key_2k_0")@[i] as u8);
    }
    assert forall|i: int| #![trigger ("key_2k_1").spec_bytes()[i]]
        0 <= i < ("key_2k_1").spec_bytes().len() implies ("key_2k_1").spec_bytes()[i] != 10u8 && (
    "key_2k_1").spec_bytes()[i] != 61u8 && !crate::text::is_space(("key_2k_1").spec_bytes()[i]) by {
        assert(("key_2k_1").spec_bytes()[i] == ("key_2k_1")@[i] as u8);
    }
    assert forall|i: int| #![trigger ("key_4k_0").spec_bytes()[i]]
        0 <= i < ("key_4k_0").spec_bytes().len() implies ("key_4k_0").spec_bytes()[i] != 10u8 && (
    "key_4k_0").spec_bytes()[i] != 61u8 && !crate::text::is_space(("key_4k_0").spec_bytes()[i]) by {
        assert(("key_4k_0").spec_bytes()[i] == ("key_4k_0")@[i] as u8);
    }
    assert forall|i: int| #![trigger ("key_4k_1").spec_bytes()[i]]
        0 <= i < ("key_4k_1").spec_bytes().len() implies ("key_4k_1").spec_bytes()[i] != 10u8 && (
    "key_4k_1").spec_bytes()[i] != 61u8 && !crate::text::is_space(("key_4k_1").spec_bytes()[i]) by {
        assert(("key_4k_1").spec_bytes()[i] == ("key_4k_1")@[i] as u8);
    }
    assert forall|i: int| #![trigger ("key_4k_2").spec_bytes()[i]]
        0 <= i < ("key_4k_2").spec_bytes().len() implies ("key_4k_2").spec_bytes()[i] != 10u8 && (
    "key_4k_2").spec_bytes()[i] != 61u8 && !crate::text::is_space(("key_4k_2").spec_bytes()[i]) by {
        assert(("key_4k_2").spec_bytes()[i] == ("key_4k_2")@[i] as u8);
    }
    assert forall|i: int| #![trigger ("key_4k_3").spec_bytes()[i]]
        0 <= i < ("key_4k_3").spec_bytes().len() implies ("key_4k_3").spec_bytes()[i] != 10u8 && (
    "key_4k_3").spec_bytes()[i] != 61u8 && !crate::text::is_space(("key_4k_3").spec_bytes()[i]) by {
        assert(("key_4k_3").spec_bytes()[i] == ("key_4k_3")@[i] as u8);
    }
    assert forall|i: int| #![trigger ("scroll_speed").spec_bytes()[i]]
        0 <= i < ("scroll_speed").spec_bytes().len() implies ("scroll_speed").spec_bytes()[i] != 10u8 && (
    "scroll_speed").spec_bytes()[i] != 61u8 && !crate::text::is_space(("scroll_speed").spec_bytes()[i]) by {
        assert(("scroll_speed").spec_bytes()[i] == ("scroll_speed")@[i] as u8);
    }
    assert forall|i: int| #![trigger ("true").spec_bytes()[i]]
        0 <= i < ("true").spec_bytes().len() implies ("true").spec_bytes()[i] != 10u8 && (
    "true").spec_bytes()[i] != 61u8 && !crate::text::is_space(("true").spec_bytes()[i]) by {
        assert(("true").spec_bytes()[i] == ("true")@[i] as u8);
    }
    assert forall|i: int| #![trigger ("false").spec_bytes()[i]]
        0 <= i < ("false").spec_bytes().len() implies ("false").spec_bytes()[i] != 10u8 && (
    "false").spec_bytes()[i] != 61u8 && !crate::text::is_space(("false").spec_bytes()[i]) by {
        assert(("false").spec_bytes()[i] == ("false")@[i] as u8);
    }
    assert(("reverse_mode=").spec_bytes() =~= ("reverse_mode").spec_bytes() + seq![61u8]);
    assert(("key_2k_0=").spec_bytes() =~= ("key_2k_0").spec_bytes() + seq![61u8]);
    assert(("key_2k_1=").spec_bytes() =~= ("key_2k_1").spec_bytes() + seq![61u8]);
    assert(("key_4k_0=").spec_bytes() =~= ("key_4k_0").spec_bytes() + seq![61u8]);
    assert(("key_4k_1=").spec_bytes() =~= ("key_4k_1").spec_bytes() + seq![61u8]);
    assert(("key_4k_2=").spec_bytes() =~= ("key_4k_2").spec_bytes() + seq![61u8]);
    assert(("key_4k_3=").spec_bytes() =~= ("key_4k_3").spec_bytes() + seq![61u8]);
    assert(("scroll_speed=").spec_bytes() =~= ("scroll_speed").spec_bytes() + seq![61u8]);
}

/// Regrouping a run of newline-terminated lines from the left-leaning
/// concatenation into one line plus the rest, repeatedly.
#[verifier::rlimit(100)]
#[verifier::spinoff_prover]
pub proof fn lemma_regroup_lines(k1: Seq<u8>, v1: Seq<u8>, k2: Seq<u8>, v2: Seq<u8>, k3: Seq<u8>, v3: Seq<u8>, k4: Seq<u8>, v4: Seq<u8>, k5: Seq<u8>, v5: Seq<u8>, k6: Seq<u8>, v6: Seq<u8>, k7: Seq<u8>, v7: Seq<u8>, k8: Seq<u8>, v8: Seq<u8>)
    ensures
        k1 + v1 + seq![10u8] + k2 + v2 + seq![10u8] + k3 + v3 + seq![10u8] + k4 + v4 + seq![10u8] + k5 + v5 + seq![10u8] + k6 + v6 + seq![10u8] + k7 + v7 + seq![10u8] + k8 + v8 + seq![10u8] == k1 + v1 + seq![10u8] + (k2 + v2 + seq![10u8] + (k3 + v3 + seq![10u8] + (k4 + v4 + seq![10u8] + (k5 + v5 + seq![10u8] + (k6 + v6 + seq![10u8] + (k7 + v7 + seq![10u8] + (k8 + v8 + seq![10u8] + Seq::<u8>::empty()))))))),
{
    assert(k1 + v1 + seq![10u8] + k2 + v2 + seq![10u8] + k3 + v3 + seq![10u8] + k4 + v4 + seq![10u8] + k5 + v5 + seq![10u8] + k6 + v6 + seq![10u8] + k7 + v7 + seq![10u8] + k8 + v8 + seq![10u8] =~= k1 + v1 + seq![10u8] + (k2 + v2 + seq![10u8] + (k3 + v3 + seq![10u8] + (k4 + v4 + seq![10u8] + (k5 + v5 + seq![10u8] + (k6 + v6 + seq![10u8] + (k7 + v7 + seq![10u8] + (k8 + v8 + seq![10u8] + Seq::<u8>::empty()))))))));
}

/// The persisted options text splits into its eight `key=value` lines (and
/// the empty piece after the final newline).
#[verifier::rlimit(100)]
pub proof fn lemma_config_lines(m: OptModel)
    requires
        1 <= m.scroll_speed <= 40,
    ensures
        split_spec(config_text_spec(m), 10) == seq![
            ("reverse_mode").spec_bytes() + seq![61u8] + bool_bytes(m.reverse_mode),
            ("key_2k_0").spec_bytes() + seq![61u8] + key_name_spec(m.key_2k[0]),
            ("key_2k_1").spec_bytes() + seq![61u8] + key_name_spec(m.key_2k[1]),
            ("key_4k_0").spec_bytes() + seq![61u8] + key_name_spec(m.key_4k[0]),
            ("key_4k_1").spec_bytes() + seq![61u8] + key_name_spec(m.key_4k[1]),
            ("key_4k_2").spec_bytes() + seq![61u8] + key_name_spec(m.key_4k[2]),
            ("key_4k_3").spec_bytes() + seq![61u8] + key_name_spec(m.key_4k[3]),
            ("scroll_speed").spec_bytes() + seq![61u8] + speed_bytes(m.scroll_speed),
            Seq::<u8>::empty(),
        ],
{
    lemma_option_literal_bytes();
    lemma_key_name_bytes(m.key_2k[0]);
    lemma_key_name_bytes(m.key_2k[1]);
    lemma_key_name_bytes(m.key_4k[0]);
    lemma_key_name_bytes(m.key_4k[1]);
    lemma_key_name_bytes(m.key_4k[2]);
    lemma_key_name_bytes(m.key_4k[3]);
    lemma_speed_bytes(m.scroll_speed);
    lemma_regroup_lines(("reverse_mode=").spec_bytes(), bool_bytes(m.reverse_mode), ("key_2k_0=").spec_bytes(), key_name_spec(m.key_2k[0]), ("key_2k_1=").spec_bytes(), key_name_spec(m.key_2k[1]), ("key_4k_0=").spec_bytes(), key_name_spec(m.key_4k[0]), ("key_4k_1=").spec_bytes(), key_name_spec(m.key_4k[1]), ("key_4k_2=").spec_bytes(), key_name_spec(m.key_4k[2]), ("key_4k_3=").spec_bytes(), key_name_spec(m.key_4k[3]), ("scroll_speed=").spec_bytes(), speed_bytes(m.scroll_speed));
    let l1 = ("reverse_mode").spec_bytes() + seq![61u8] + bool_bytes(m.reverse_mode);
    let l2 = ("key_2k_0").spec_bytes() + seq![61u8] + key_name_spec(m.key_2k[0]);
    let l3 = ("key_2k_1").spec_bytes() + seq![61u8] + key_name_spec(m.key_2k[1]);
    let l4 = ("key_4k_0").spec_bytes() + seq![61u8] + key_name_spec(m.key_4k[0]);
    let l5 = ("key_4k_1").spec_bytes() + seq![61u8] + key_name_spec(m.key_4k[1]);
    let l6 = ("key_4k_2").spec_bytes() + seq![61u8] + key_name_spec(m.key_4k[2]);
    let l7 = ("key_4k_3").spec_bytes() + seq![61u8] + key_name_spec(m.key_4k[3]);
    let l8 = ("scroll_speed").spec_bytes() + seq![61u8] + speed_bytes(m.scroll_speed);
    assert(l1 =~= ("reverse_mode=").spec_bytes() + bool_bytes(m.reverse_mode));
    assert(l2 =~= ("key_2k_0=").spec_bytes() + key_name_spec(m.key_2k[0]));
    assert(l3 =~= ("key_2k_1=").spec_bytes() + key_name_spec(m.key_2k[1]));
    assert(l4 =~= ("key_4k_0=").spec_bytes() + key_name_spec(m.key_4k[0]));
    assert(l5 =~= ("key_4k_1=").spec_bytes() + key_name_spec(m.key_4k[1]));
    assert(l6 =~= ("key_4k_2=").spec_bytes() + key_name_spec(m.key_4k[2]));
    assert(l7 =~= ("key_4k_3=").spec_bytes() + key_name_spec(m.key_4k[3]));
    assert(l8 =~= ("scroll_speed=").spec_bytes() + speed_bytes(m.scroll_speed));
    let r8: Seq<u8> = l8 + seq![10u8] + Seq::<u8>::empty();
    let r7: Seq<u8> = l7 + seq![10u8] + r8;
    let r6: Seq<u8> = l6 + seq![10u8] + r7;
    let r5: Seq<u8> = l5 + seq![10u8] + r6;
    let r4: Seq<u8> = l4 + seq![10u8] + r5;
    let r3: Seq<u8> = l3 + seq![10u8] + r4;
    let r2: Seq<u8> = l2 + seq![10u8] + r3;
    assert(config_text_spec(m) == l1 + seq![10u8] + r2);
    crate::text::lemma_split_prefix(l1, r2, 10);
    crate::text::lemma_split_prefix(l2, r3, 10);
    crate::text::lemma_split_prefix(l3, r4, 10);
    crate::text::lemma_split_prefix(l4, r5, 10);
    crate::text::lemma_split_prefix(l5, r6, 10);
    crate::text::lemma_split_prefix(l6, r7, 10);
    crate::text::lemma_split_prefix(l7, r8, 10);
    crate::text::lemma_split_prefix(l8, Seq::<u8>::empty(), 10);
    crate::text::lemma_split_whole(Seq::<u8>::empty(), 10);
}

/// Saving the options and loading what was written gives the options
/// back: every `key=value` line the writer emits parses to the field it
/// came from, starting from the defaults.
#[verifier::rlimit(100)]
pub proof fn lemma_options_round_trip(m: OptModel)
    requires
        m.key_2k.len() == 2,
        m.key_4k.len() == 4,
        1 <= m.scroll_speed <= 40,
    ensures
        from_config_spec(config_text_spec(m)) == m,
{
    lemma_option_literal_bytes();
    lemma_key_name_bytes(m.key_2k[0]);
    lemma_key_name_bytes(m.key_2k[1]);
    lemma_key_name_bytes(m.key_4k[0]);
    lemma_key_name_bytes(m.key_4k[1]);
    lemma_key_name_bytes(m.key_4k[2]);
    lemma_key_name_bytes(m.key_4k[3]);
    lemma_speed_bytes(m.scroll_speed);
    lemma_key_name_round_trip(m.key_2k[0]);
    lemma_key_name_round_trip(m.key_2k[1]);
    lemma_key_name_round_trip(m.key_4k[0]);
    lemma_key_name_round_trip(m.key_4k[1]);
    lemma_key_name_round_trip(m.key_4k[2]);
    lemma_key_name_round_trip(m.key_4k[3]);
    lemma_config_lines(m);
    let lines = split_spec(config_text_spec(m), 10);
    lemma_kv_line(("reverse_mode").spec_bytes(), bool_bytes(m.reverse_mode));
    lemma_kv_line(("key_2k_0").spec_bytes(), key_name_spec(m.key_2k[0]));
    lemma_kv_line(("key_2k_1").spec_bytes(), key_name_spec(m.key_2k[1]));
    lemma_kv_line(("key_4k_0").spec_bytes(), key_name_spec(m.key_4k[0]));
    lemma_kv_line(("key_4k_1").spec_bytes(), key_name_spec(m.key_4k[1]));
    lemma_kv_line(("key_4k_2").spec_bytes(), key_name_spec(m.key_4k[2]));
    lemma_kv_line(("key_4k_3").spec_bytes(), key_name_spec(m.key_4k[3]));
    lemma_kv_line(("scroll_speed").spec_bytes(), speed_bytes(m.scroll_speed));
    crate::text::lemma_split_whole(Seq::<u8>::empty(), 61);
    let m0 = default_model();
    let e1 = OptModel { reverse_mode: m.reverse_mode, ..m0 };
    assert(opts_step(m0, lines[0]) == e1);
    let e2 = OptModel { key_2k: e1.key_2k.update(0, m.key_2k[0]), ..e1 };
    assert(opts_step(e1, lines[1]) == e2);
    let e3 = OptModel { key_2k: e2.key_2k.update(1, m.key_2k[1]), ..e2 };
    assert(opts_step(e2, lines[2]) == e3);
    let e4 = OptModel { key_4k: e3.key_4k.update(0, m.key_4k[0]), ..e3 };
    assert(opts_step(e3, lines[3]) == e4);
    let e5 = OptModel { key_4k: e4.key_4k.update(1, m.key_4k[1]), ..e4 };
    assert(opts_step(e4, lines[4]) == e5);
    let e6 = OptModel { key_4k: e5.key_4k.update(2, m.key_4k[2]), ..e5 };
    assert(opts_step(e5, lines[5]) == e6);
    let e7 = OptModel { key_4k: e6.key_4k.update(3, m.key_4k[3]), ..e6 };
    assert(opts_step(e6, lines[6]) == e7);
    let e8 = OptModel { scroll_speed: m.scroll_speed, ..e7 };
    assert(opts_step(e7, lines[7]) == e8);
    assert(opts_step(e8, lines[8]) == e8);
    assert(from_config_spec(config_text_spec(m)) == opts_scan(lines, 0, m0));
    assert(opts_scan(lines, 0, m0) == opts_scan(lines, 1, e1));
    assert(opts_scan(lines, 1, e1) == opts_scan(lines, 2, e2));
    assert(opts_scan(lines, 2, e2) == opts_scan(lines, 3, e3));
    assert(opts_scan(lines, 3, e3) == opts_scan(lines, 4, e4));
    assert(opts_scan(lines, 4, e4) == opts_scan(lines, 5, e5));
    assert(opts_scan(lines, 5, e5) == opts_scan(lines, 6, e6));
    assert(opts_scan(lines, 6, e6) == opts_scan(lines, 7, e7));
    assert(opts_scan(lines, 7, e7) == opts_scan(lines, 8, e8));
    assert(opts_scan(lines, 8, e8) == opts_scan(lines, 9, e8));
    assert(opts_scan(lines, 9, e8) == e8);
    assert(e8.key_2k =~= m.key_2k);
    assert(e8.key_4k =~= m.key_4k);
    assert(e8 == m);
}

} // verus!
