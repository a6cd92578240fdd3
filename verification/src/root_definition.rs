//! A backup root: a named directory whose files are backed up.
use vstd::prelude::*;
use vstd::string::*;
use crate::paths::{join_path, join_path_of, strip_path_prefix, strip_path_prefix_of};
use crate::root_preferences::{optional_preferences_view, RootPreferences, RootPreferencesView};

verus! {

/// The error of asking for the identifier of a file outside a root.
pub const OUTSIDE_ROOT_MESSAGE: &'static str = "File is not within the current root directory!";

/// Two root definitions with the same name, path and preferences.
pub open spec fn same_root(a: RootDefinition, b: RootDefinition) -> bool {
    a.spec_name() == b.spec_name() && a.spec_path() == b.spec_path() && a.spec_preferences()
        == b.spec_preferences()
}

/// The identifier of the file a root gives for an identifier is that identifier
/// again: `make_path_identifier` undoes `make_original_file_path_from_identifier`
/// for a relative identifier in normal form (no empty, `.` or trailing
/// components), and the file lies inside the root.
pub proof fn lemma_identifier_round_trip(root: RootDefinition, file_id: Seq<char>)
    requires
        !crate::paths::is_absolute(file_id),
        file_id.len() > 0,
        crate::paths::is_normal_path(file_id),
        crate::paths::no_cur_dir(crate::paths::segments(file_id)),
    ensures
        strip_path_prefix(join_path(root.spec_path(), file_id), root.spec_path()) == Some(file_id),
{
    crate::paths::lemma_strip_after_join(root.spec_path(), file_id);
}

/// A named directory to back up, with its own preferences.
#[derive(Clone, Debug)]
pub struct RootDefinition {
    name: String,
    path: String,
    preferences: Option<RootPreferences>,
}

impl RootDefinition {
    pub closed spec fn spec_name(&self) -> Seq<char> {
        self.name@
    }

    pub closed spec fn spec_path(&self) -> Seq<char> {
        self.path@
    }

    pub closed spec fn spec_preferences(&self) -> Option<RootPreferencesView> {
        optional_preferences_view(self.preferences)
    }

    pub fn new(name: String, path: String, preferences: Option<RootPreferences>) -> (r: Self)
        ensures
            r.spec_name() == name@,
            r.spec_path() == path@,
            r.spec_preferences() == optional_preferences_view(preferences),
    {
        Self { name, path, preferences }
    }

    pub fn path(&self) -> (r: &String)
        ensures
            r@ == self.spec_path(),
    {
        &self.path
    }

    pub fn preferences(&self) -> (r: Option<&RootPreferences>)
        ensures
            match r {
                Some(p) => self.spec_preferences() == Some(p@),
                None => self.spec_preferences() is None,
            },
    {
        match &self.preferences {
            Some(p) => Some(p),
            None => None,
        }
    }

    pub fn name(&self) -> (r: &str)
        ensures
            r@ == self.spec_name(),
    {
        self.name.as_str()
    }

    /// A copy of this root.
    pub fn duplicate(&self) -> (r: Self)
        ensures
            r.spec_name() == self.spec_name(),
            r.spec_path() == self.spec_path(),
            r.spec_preferences() == self.spec_preferences(),
    {
        let preferences = match &self.preferences {
            Some(p) => Some(p.duplicate()),
            None => None,
        };
        RootDefinition { name: self.name.clone(), path: self.path.clone(), preferences }
    }

    /// The identifier of a file of this root: its path relative to the root's path.
    pub fn make_path_identifier(&self, path: &str) -> (r: Result<String, &'static str>)
        ensures
            match r {
                Ok(id) => strip_path_prefix(path@, self.spec_path()) == Some(id@),
                Err(e) => strip_path_prefix(path@, self.spec_path()) is None && e
                    == OUTSIDE_ROOT_MESSAGE,
            },
    {
        match strip_path_prefix_of(path, self.path.as_str()) {
            Some(id) => Ok(id),
            None => Err(OUTSIDE_ROOT_MESSAGE),
        }
    }

    /// The path of the file of this root with the given identifier.
    pub fn make_original_file_path_from_identifier(&self, file_id: &str) -> (r: String)
        ensures
            r@ == join_path(self.spec_path(), file_id@),
    {
        join_path_of(self.path.as_str(), file_id)
    }
}

} // verus!
