//! Component types of the game, known by their type names.
use vstd::prelude::*;
use vstd::string::StringSliceAdditionalSpecFns;
use vstd::utf8::encode_utf8;
use crate::game_layout::ComponentData;
use crate::noita_types::{CString, StdString};

verus! {

/// A component type of the game.
pub trait Component {
    /// The type name.
    spec fn name_spec() -> Seq<char>;

    /// The type name.
    fn name() -> (r: &'static str)
        ensures
            r@ == Self::name_spec(),
    ;

    /// The type name as the game's NUL-terminated string.
    fn c_name() -> (r: CString)
        ensures
            r.bytes() == encode_utf8(Self::name_spec()).push(0),
    {
        CString::from(Self::name())
    }

    /// The type name as the game's C++ string.
    fn std_name() -> (r: StdString)
        ensures
            r.wf(),
            r.content() == encode_utf8(Self::name_spec()),
    {
        StdString::from_str(Self::name())
    }
}

/// The money a player or creature carries.
pub struct WalletComponent {
    pub inherited_fields: ComponentData,
    pub money: i64,
    pub money_spent: i64,
    pub m_money_prev_frame: i64,
    pub m_has_reached_inf: bool,
}

impl Component for WalletComponent {
    open spec fn name_spec() -> Seq<char> {
        "WalletComponent"@
    }

    fn name() -> (r: &'static str) {
        "WalletComponent"
    }
}

} // verus!
