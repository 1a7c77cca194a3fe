//! Presentation hints for the calendar export.

use vstd::prelude::*;

use crate::text;

verus! {

/// The display colour and label prefix the calendar export renders for a
/// marking: the three known markings get their colour and a bracketed
/// label, any other marking — or none — stays white and unlabelled.
pub fn color_name_for_mark<'a>(mark: Option<&'a str>) -> (r: (&'static str, &'static str))
    ensures
        (mark matches Some(m) && m@ == "started"@)
            ==> r.0@ == "yellow"@ && r.1@ == "[Démarré]\n"@,
        (mark matches Some(m) && m@ == "further_learning_required"@)
            ==> r.0@ == "#ffc000"@ && r.1@ == "[À approfondir]\n"@,
        (mark matches Some(m) && m@ == "done"@)
            ==> r.0@ == "#92d050"@ && r.1@ == "[Terminé]\n"@,
        (match mark {
            Some(m) => m@ != "started"@ && m@ != "further_learning_required"@
                && m@ != "done"@,
            None => true,
        }) ==> r.0@ == "white"@ && r.1@ == ""@,
{
    proof {
        // the three known markings differ pairwise (their lengths do)
        reveal_strlit("started");
        reveal_strlit("further_learning_required");
        reveal_strlit("done");
        assert("started"@.len() == 7);
        assert("further_learning_required"@.len() == 25);
        assert("done"@.len() == 4);
    }
    match mark {
        Some(m) => {
            if text::str_eq(m, "started") {
                ("yellow", "[Démarré]\n")
            } else if text::str_eq(m, "further_learning_required") {
                ("#ffc000", "[À approfondir]\n")
            } else if text::str_eq(m, "done") {
                ("#92d050", "[Terminé]\n")
            } else {
                ("white", "")
            }
        },
        None => ("white", ""),
    }
}

} // verus!
