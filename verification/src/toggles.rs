//! Switches that turn tools on and off at run time.

use vstd::prelude::*;

use crate::text;

verus! {

/// The switches; all are on unless they were turned off.
#[derive(Clone, Copy, PartialEq, Eq, Structural, Debug)]
pub struct Toggles {
    pub hotel_crawler: bool,
    pub xhs: bool,
}

impl Default for Toggles {
    fn default() -> (t: Toggles)
        ensures
            t.hotel_crawler,
            t.xhs,
    {
        Toggles { hotel_crawler: true, xhs: true }
    }
}

impl Toggles {
    /// The switches after one of them was set, if there is one with that name.
    pub open spec fn with(self, key: Seq<char>, val: bool) -> Option<Toggles> {
        if key == "hotel"@ {
            Some(Toggles { hotel_crawler: val, ..self })
        } else if key == "xhs"@ {
            Some(Toggles { xhs: val, ..self })
        } else {
            None
        }
    }

    /// Sets a switch.
    pub fn set(&mut self, key: &str, val: bool) -> (r: Result<(), String>)
        ensures
            match r {
                Ok(_) => old(self).with(key@, val) == Some(*final(self)),
                Err(e) => old(self).with(key@, val) is None && *final(self) == *old(self) && e@
                    == "未知开关: "@ + key@,
            },
    {
        if text::same(key, "hotel") {
            self.hotel_crawler = val;
            Ok(())
        } else if text::same(key, "xhs") {
            self.xhs = val;
            Ok(())
        } else {
            let mut e = text::copy_text("未知开关: ");
            e.append(key);
            Err(e)
        }
    }
}

/// Setting a switch leaves the other alone, and setting it twice is setting it the second time.
pub proof fn law_switches_are_independent(t: Toggles, a: bool, b: bool)
    ensures
        t.with("hotel"@, a)->Some_0.xhs == t.xhs,
        t.with("xhs"@, a)->Some_0.hotel_crawler == t.hotel_crawler,
        t.with("hotel"@, a)->Some_0.with("hotel"@, b) == t.with("hotel"@, b),
        t.with("xhs"@, a)->Some_0.with("xhs"@, b) == t.with("xhs"@, b),
{
    reveal_strlit("hotel");
    reveal_strlit("xhs");
    assert("hotel"@.len() == 5 && "xhs"@.len() == 3);
}

/// A switch is set by its name to what is wanted, and no other name sets one.
pub proof fn law_switches_are_set_by_name(t: Toggles, key: Seq<char>, val: bool)
    ensures
        key == "hotel"@ ==> t.with(key, val) == Some(Toggles { hotel_crawler: val, xhs: t.xhs }),
        key == "xhs"@ ==> t.with(key, val) == Some(
            Toggles { hotel_crawler: t.hotel_crawler, xhs: val },
        ),
        key != "hotel"@ && key != "xhs"@ ==> t.with(key, val) is None,
{
    reveal_strlit("hotel");
    reveal_strlit("xhs");
    assert("hotel"@.len() == 5 && "xhs"@.len() == 3);
}

} // verus!
