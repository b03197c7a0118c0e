//! Choosing between the French and English wording of a label.
use vstd::prelude::*;
use crate::reference::Locale;

verus! {

/// The French text for `Fr`, the English text for `En`.
pub fn text(locale: Locale, fr: &'static str, en: &'static str) -> (r: &'static str)
    ensures
        r == (match locale {
            Locale::Fr => fr,
            Locale::En => en,
        }),
{
    match locale {
        Locale::Fr => fr,
        Locale::En => en,
    }
}

} // verus!
