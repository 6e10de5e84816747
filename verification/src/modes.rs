//! Game modes. The wire format and the storage layer identify a mode by a
//! small integer: 0 = osu!, 1 = taiko, 2 = catch, 3 = mania; 4 is the
//! server-side Relax partition of the standard mode.

use vstd::prelude::*;

verus! {

#[derive(Debug, Clone, Copy, PartialEq, Eq, Structural)]
pub enum OsuMode {
    Osu,
    Taiko,
    Fruits,
    Mania,
    Relax,
}

impl OsuMode {
    /// The numeric id of this mode as the client and storage use it.
    pub open spec fn spec_to_osu(&self) -> i32 {
        match self {
            OsuMode::Osu => 0,
            OsuMode::Taiko => 1,
            OsuMode::Fruits => 2,
            OsuMode::Mania => 3,
            OsuMode::Relax => 4,
        }
    }

    #[verifier::when_used_as_spec(spec_to_osu)]
    pub fn to_osu(&self) -> (r: i32)
        ensures
            r == self.spec_to_osu(),
    {
        match self {
            OsuMode::Osu => 0,
            OsuMode::Taiko => 1,
            OsuMode::Fruits => 2,
            OsuMode::Mania => 3,
            OsuMode::Relax => 4,
        }
    }

    /// The mode a numeric id denotes; ids out of range fall back to osu!.
    pub open spec fn spec_from_id(id: u8) -> OsuMode {
        if id == 1 {
            OsuMode::Taiko
        } else if id == 2 {
            OsuMode::Fruits
        } else if id == 3 {
            OsuMode::Mania
        } else if id == 4 {
            OsuMode::Relax
        } else {
            OsuMode::Osu
        }
    }

    #[verifier::when_used_as_spec(spec_from_id)]
    pub fn from_id(id: u8) -> (r: OsuMode)
        ensures
            r == OsuMode::spec_from_id(id),
    {
        match id {
            1 => OsuMode::Taiko,
            2 => OsuMode::Fruits,
            3 => OsuMode::Mania,
            4 => OsuMode::Relax,
            _ => OsuMode::Osu,
        }
    }

    /// Column-name suffix used by the per-mode statistics storage.
    pub fn to_db_suffix(&self) -> (r: &'static str)
        ensures
            self is Osu ==> r@ == "Std"@,
            self is Taiko ==> r@ == "Taiko"@,
            self is Fruits ==> r@ == "Ctb"@,
            self is Mania ==> r@ == "Mania"@,
            self is Relax ==> r@ == "Rx"@,
    {
        match self {
            OsuMode::Osu => "Std",
            OsuMode::Taiko => "Taiko",
            OsuMode::Fruits => "Ctb",
            OsuMode::Mania => "Mania",
            OsuMode::Relax => "Rx",
        }
    }

    /// Human-readable mode name.
    pub fn to_string(&self) -> (r: String)
        ensures
            self is Osu ==> r@ == "osu!"@,
            self is Taiko ==> r@ == "osu:taiko"@,
            self is Fruits ==> r@ == "osu!catch"@,
            self is Mania ==> r@ == "osu!mania"@,
            self is Relax ==> r@ == "osu!rx"@,
    {
        let s = match self {
            OsuMode::Osu => "osu!",
            OsuMode::Taiko => "osu:taiko",
            OsuMode::Fruits => "osu!catch",
            OsuMode::Mania => "osu!mania",
            OsuMode::Relax => "osu!rx",
        };
        String::from_str(s)
    }

    /// Effective mode of a play: the Relax mod bit (mask 128) reroutes the
    /// standard mode to the Relax partition; other modes keep their id.
    pub open spec fn spec_effective(declared: u8, mods: i32) -> OsuMode {
        if mods & 128 == 128 && OsuMode::spec_from_id(declared) is Osu {
            OsuMode::Relax
        } else {
            OsuMode::spec_from_id(declared)
        }
    }

    /// Classify a play by its declared mode and mods bitfield.
    pub fn effective(declared: u8, mods: i32) -> (r: OsuMode)
        ensures
            r == OsuMode::spec_effective(declared, mods),
    {
        let base = OsuMode::from_id(declared);
        if mods & 128 == 128 && base == OsuMode::Osu {
            OsuMode::Relax
        } else {
            base
        }
    }
}

} // verus!
