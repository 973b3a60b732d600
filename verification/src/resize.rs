//! Resize request options: which scope a request covers and which output
//! size it asks for, read from their textual forms.

use vstd::prelude::*;
use crate::text::str_eq;

verus! {

/// The scope of a resize request: one image, or a whole folder.
#[derive(Debug, PartialEq)]
pub enum Mode {
    Single,
    All,
}

/// The output size a resize request asks for.
#[derive(Debug, PartialEq)]
pub enum SizeOption {
    Small,
    Medium,
    Large,
}

impl Mode {
    /// Reads a scope argument: `single` or `all`, either capitalised or not;
    /// anything else is refused.
    pub fn from_str(s: &str) -> (r: Result<Mode, String>)
        ensures
            match r {
                Ok(m) => (m == Mode::Single && (s@ == "single"@ || s@ == "Single"@)) || (m
                    == Mode::All && (s@ == "all"@ || s@ == "All"@)),
                Err(e) => s@ != "single"@ && s@ != "Single"@ && s@ != "all"@ && s@ != "All"@ && e@
                    == "Invalid input"@,
            },
    {
        if str_eq(s, "single") || str_eq(s, "Single") {
            Ok(Mode::Single)
        } else if str_eq(s, "all") || str_eq(s, "All") {
            Ok(Mode::All)
        } else {
            Err("Invalid input".to_owned())
        }
    }
}

impl SizeOption {
    /// Reads a size argument: `small`, `medium` or `large`, either
    /// capitalised or not; anything else is refused.
    pub fn from_str(s: &str) -> (r: Result<SizeOption, String>)
        ensures
            match r {
                Ok(o) => (o == SizeOption::Small && (s@ == "small"@ || s@ == "Small"@)) || (o
                    == SizeOption::Medium && (s@ == "medium"@ || s@ == "Medium"@)) || (o
                    == SizeOption::Large && (s@ == "large"@ || s@ == "Large"@)),
                Err(e) => s@ != "small"@ && s@ != "Small"@ && s@ != "medium"@ && s@ != "Medium"@
                    && s@ != "large"@ && s@ != "Large"@ && e@ == "Invalid input"@,
            },
    {
        if str_eq(s, "small") || str_eq(s, "Small") {
            Ok(SizeOption::Small)
        } else if str_eq(s, "medium") || str_eq(s, "Medium") {
            Ok(SizeOption::Medium)
        } else if str_eq(s, "large") || str_eq(s, "Large") {
            Ok(SizeOption::Large)
        } else {
            Err("Invalid input".to_owned())
        }
    }
}

} // verus!
