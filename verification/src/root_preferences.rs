//! What to back up inside a root: inclusion and exclusion globs and size rules.
use vstd::prelude::*;
use crate::config::{ConfigError, ConfigResult};
use crate::globs::{build_globset, glob_set_patterns, glob_set_possible};
use crate::paths::string_views;
use crate::text::{copy_optional_strings, optional_views};

verus! {

/// The pattern that includes every file, used when a root names no inclusions.
pub open spec fn include_everything() -> Seq<Seq<char>> {
    seq![seq!['*', '*', '/', '*']]
}

/// The preferences of a root, every field being optional.
#[derive(Clone, Debug)]
pub struct RootPreferences {
    inclusions: Option<Vec<String>>,
    exclusions: Option<Vec<String>>,
    max_file_size: Option<Vec<String>>,
    substitute_big_files_with_path: Option<bool>,
}

/// The mathematical value of a `RootPreferences`.
pub struct RootPreferencesView {
    pub inclusions: Option<Seq<Seq<char>>>,
    pub exclusions: Option<Seq<Seq<char>>>,
    pub max_file_size: Option<Seq<Seq<char>>>,
    pub substitute_big_files_with_path: Option<bool>,
}

impl View for RootPreferences {
    type V = RootPreferencesView;

    closed spec fn view(&self) -> RootPreferencesView {
        RootPreferencesView {
            inclusions: optional_views(self.inclusions),
            exclusions: optional_views(self.exclusions),
            max_file_size: optional_views(self.max_file_size),
            substitute_big_files_with_path: self.substitute_big_files_with_path,
        }
    }
}

/// Preferences with no field set.
pub open spec fn unset_preferences() -> RootPreferencesView {
    RootPreferencesView {
        inclusions: None,
        exclusions: None,
        max_file_size: None,
        substitute_big_files_with_path: None,
    }
}

/// The view of optional preferences.
pub open spec fn optional_preferences_view(p: Option<RootPreferences>) -> Option<
    RootPreferencesView,
> {
    match p {
        Some(x) => Some(x@),
        None => None,
    }
}

/// The first of two optional values that is present.
pub open spec fn first_present<T>(a: Option<T>, b: Option<T>) -> Option<T> {
    if a is Some {
        a
    } else {
        b
    }
}

/// Field by field: the primary value, else the supplementary value, else the
/// default (which sets nothing).
pub open spec fn fill_spec(
    primary: Option<RootPreferencesView>,
    supplementary: Option<RootPreferencesView>,
) -> RootPreferencesView {
    let p = match primary {
        Some(v) => v,
        None => unset_preferences(),
    };
    let s = match supplementary {
        Some(v) => v,
        None => unset_preferences(),
    };
    RootPreferencesView {
        inclusions: first_present(p.inclusions, s.inclusions),
        exclusions: first_present(p.exclusions, s.exclusions),
        max_file_size: first_present(p.max_file_size, s.max_file_size),
        substitute_big_files_with_path: first_present(
            p.substitute_big_files_with_path,
            s.substitute_big_files_with_path,
        ),
    }
}

/// The inclusion patterns in effect: the configured ones, else everything.
pub open spec fn effective_inclusions(p: RootPreferencesView) -> Seq<Seq<char>> {
    match p.inclusions {
        Some(v) => v,
        None => include_everything(),
    }
}

/// The exclusion patterns in effect: the configured ones, else none.
pub open spec fn effective_exclusions(p: RootPreferencesView) -> Seq<Seq<char>> {
    match p.exclusions {
        Some(v) => v,
        None => Seq::empty(),
    }
}

impl Default for RootPreferences {
    /// Preferences that set nothing.
    fn default() -> (r: Self)
        ensures
            r@ == unset_preferences(),
    {
        RootPreferences {
            inclusions: None,
            exclusions: None,
            max_file_size: None,
            substitute_big_files_with_path: None,
        }
    }
}

impl RootPreferences {
    /// Preferences with the given fields.
    pub fn new(
        inclusions: Option<Vec<String>>,
        exclusions: Option<Vec<String>>,
        max_file_size: Option<Vec<String>>,
        substitute_big_files_with_path: Option<bool>,
    ) -> (r: Self)
        ensures
            r@.inclusions == optional_views(inclusions),
            r@.exclusions == optional_views(exclusions),
            r@.max_file_size == optional_views(max_file_size),
            r@.substitute_big_files_with_path == substitute_big_files_with_path,
    {
        RootPreferences { inclusions, exclusions, max_file_size, substitute_big_files_with_path }
    }

    /// A copy of these preferences.
    pub fn duplicate(&self) -> (r: Self)
        ensures
            r@ == self@,
    {
        RootPreferences {
            inclusions: copy_optional_strings(&self.inclusions),
            exclusions: copy_optional_strings(&self.exclusions),
            max_file_size: copy_optional_strings(&self.max_file_size),
            substitute_big_files_with_path: self.substitute_big_files_with_path,
        }
    }

    /// Takes the primary and supplementary preferences and fills out the final
    /// preferences field by field with this priority: the primary value; if that is
    /// `None`, the supplementary value; if that is `None` too, the default value.
    /// A field may still be `None` at the end.
    pub fn fill_with_priority(
        primary: Option<RootPreferences>,
        supplementary: Option<RootPreferences>,
    ) -> (r: RootPreferences)
        ensures
            r@ == fill_spec(
                optional_preferences_view(primary),
                optional_preferences_view(supplementary),
            ),
    {
        let defaults = RootPreferences::default();
        let (p_inc, p_exc, p_max, p_sub) = match primary {
            Some(p) => (p.inclusions, p.exclusions, p.max_file_size, p.substitute_big_files_with_path),
            None => (None, None, None, None),
        };
        let (s_inc, s_exc, s_max, s_sub) = match supplementary {
            Some(s) => (s.inclusions, s.exclusions, s.max_file_size, s.substitute_big_files_with_path),
            None => (None, None, None, None),
        };
        let inclusions = match p_inc {
            Some(v) => Some(v),
            None => match s_inc {
                Some(v) => Some(v),
                None => copy_optional_strings(&defaults.inclusions),
            },
        };
        let exclusions = match p_exc {
            Some(v) => Some(v),
            None => match s_exc {
                Some(v) => Some(v),
                None => copy_optional_strings(&defaults.exclusions),
            },
        };
        let max_file_size = match p_max {
            Some(v) => Some(v),
            None => match s_max {
                Some(v) => Some(v),
                None => copy_optional_strings(&defaults.max_file_size),
            },
        };
        let substitute_big_files_with_path = match p_sub {
            Some(b) => Some(b),
            None => match s_sub {
                Some(b) => Some(b),
                None => defaults.substitute_big_files_with_path,
            },
        };
        RootPreferences { inclusions, exclusions, max_file_size, substitute_big_files_with_path }
    }

    /// The glob set of the inclusion patterns; everything (`**/*`) when none is set.
    pub fn inclusions_globset(&self) -> (r: ConfigResult<globset::GlobSet>)
        ensures
            r is Ok <==> glob_set_possible(effective_inclusions(self@)),
            r matches Ok(s) ==> glob_set_patterns(s) == effective_inclusions(self@),
            r matches Err(e) ==> e is PatternError,
    {
        let everything: Vec<String> = vec![String::from_str(every_file_pattern())];
        proof {
            reveal_strlit("**/*");
            assert(string_views(everything@) =~= include_everything());
        }
        let patterns = match &self.inclusions {
            Some(v) => v,
            None => &everything,
        };
        match build_globset(patterns) {
            Ok(s) => Ok(s),
            Err(e) => Err(ConfigError::PatternError(e)),
        }
    }

    /// The glob set of the exclusion patterns; an empty set when none is set.
    pub fn exclusions_globset(&self) -> (r: ConfigResult<globset::GlobSet>)
        ensures
            r is Ok <==> glob_set_possible(effective_exclusions(self@)),
            r matches Ok(s) ==> glob_set_patterns(s) == effective_exclusions(self@),
            r matches Err(e) ==> e is PatternError,
    {
        let nothing: Vec<String> = Vec::new();
        proof {
            assert(string_views(nothing@) =~= Seq::<Seq<char>>::empty());
        }
        let patterns = match &self.exclusions {
            Some(v) => v,
            None => &nothing,
        };
        match build_globset(patterns) {
            Ok(s) => Ok(s),
            Err(e) => Err(ConfigError::PatternError(e)),
        }
    }

    pub fn exclusions(&self) -> (r: Option<&Vec<String>>)
        ensures
            match r {
                Some(v) => self@.exclusions == Some(string_views(v@)),
                None => self@.exclusions is None,
            },
    {
        match &self.exclusions {
            Some(v) => Some(v),
            None => None,
        }
    }

    pub fn max_file_size(&self) -> (r: Option<&Vec<String>>)
        ensures
            match r {
                Some(v) => self@.max_file_size == Some(string_views(v@)),
                None => self@.max_file_size is None,
            },
    {
        match &self.max_file_size {
            Some(v) => Some(v),
            None => None,
        }
    }

    /// Whether big files are replaced by their path; `false` unless set.
    pub fn substitute_big_files_with_path(&self) -> (r: bool)
        ensures
            r == (self@.substitute_big_files_with_path == Some(true)),
    {
        match self.substitute_big_files_with_path {
            Some(b) => b,
            None => false,
        }
    }

    /// The substitution setting as written in the configuration.
    pub fn substitute_big_files_with_path_setting(&self) -> (r: Option<bool>)
        ensures
            r == self@.substitute_big_files_with_path,
    {
        self.substitute_big_files_with_path
    }

    pub fn inclusions(&self) -> (r: Option<&Vec<String>>)
        ensures
            match r {
                Some(v) => self@.inclusions == Some(string_views(v@)),
                None => self@.inclusions is None,
            },
    {
        match &self.inclusions {
            Some(v) => Some(v),
            None => None,
        }
    }
}

/// The pattern that matches every file below a root.
fn every_file_pattern() -> (r: &'static str)
    ensures
        r@ == seq!['*', '*', '/', '*'],
{
    proof {
        reveal_strlit("**/*");
    }
    "**/*"
}

} // verus!
