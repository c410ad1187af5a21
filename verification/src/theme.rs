use vstd::prelude::*;

verus! {

/// Why no theme could be chosen.
#[derive(Debug, Clone, Copy, PartialEq, Eq, Structural)]
pub enum ThemeError {
    /// No theme is loaded at all.
    NoTheme,
    /// The theme named in the preferences is not loaded.
    MissingTheme,
}

/// The theme a presenter draws with, as an index into the names of the
/// loaded themes (in their order): the one named in the preferences, if a
/// name is given, else the first. There must be at least one theme either way.
pub fn choose_theme(theme_name: Option<&String>, available: &Vec<String>) -> (r: Result<usize, ThemeError>)
    ensures
        available@.len() == 0 ==> r == Result::<usize, ThemeError>::Err(ThemeError::NoTheme),
        available@.len() > 0 ==> match theme_name {
            Option::None => r == Result::<usize, ThemeError>::Ok(0),
            Option::Some(name) => match r {
                Result::Ok(i) => i < available@.len() && available@[i as int]@ == name@
                    && forall|j: int| 0 <= j < i ==> available@[j]@ != name@,
                Result::Err(e) => e == ThemeError::MissingTheme
                    && forall|j: int| 0 <= j < available@.len() ==> available@[j]@ != name@,
            },
        },
{
    if available.len() == 0 {
        return Result::Err(ThemeError::NoTheme);
    }
    match theme_name {
        Option::None => Result::Ok(0),
        Option::Some(name) => {
            let mut i: usize = 0;
            while i < available.len()
                invariant
                    theme_name == Option::Some(name),
                    available@.len() > 0,
                    i <= available@.len(),
                    forall|j: int| 0 <= j < i ==> available@[j]@ != name@,
                decreases available@.len() - i,
            {
                let found = available[i].eq(name);
                proof {
                    assert(found == (available@[i as int]@ == name@));
                }
                if found {
                    return Result::Ok(i);
                }
                i += 1;
            }
            Result::Err(ThemeError::MissingTheme)
        },
    }
}

} // verus!
