use vstd::prelude::*;
use std::path::PathBuf;

verus! {

#[verifier::external_type_specification]
#[verifier::external_body]
pub struct ExPathBuf(PathBuf);

/// The application's settings: the database file, and whether a change awaits saving.
pub struct Config {
    database: Option<PathBuf>,
    is_dirty: bool,
}

impl Config {
    pub closed spec fn database_path(&self) -> Option<PathBuf> {
        self.database
    }

    /// A change was made since the settings were read or saved.
    pub closed spec fn dirty(&self) -> bool {
        self.is_dirty
    }

    /// Settings with no database, nothing to save.
    pub fn empty() -> (r: Config)
        ensures
            r.database_path() is None,
            !r.dirty(),
    {
        Config { database: None, is_dirty: false }
    }

    /// Settings as they were read from disk, nothing to save.
    pub fn from_saved(database: Option<PathBuf>) -> (r: Config)
        ensures
            r.database_path() == database,
            !r.dirty(),
    {
        Config { database, is_dirty: false }
    }

    /// The database file, if one was chosen.
    pub fn database(&self) -> (r: Option<&PathBuf>)
        ensures
            r is Some <==> self.database_path() is Some,
            r matches Some(p) ==> self.database_path() == Some(*p),
    {
        match &self.database {
            Some(p) => Some(p),
            None => None,
        }
    }

    /// Chooses the database file; the settings then need saving.
    pub fn set_database(&mut self, path: PathBuf)
        ensures
            final(self).database_path() == Some(path),
            final(self).dirty(),
    {
        self.database = Some(path);
        self.is_dirty = true;
    }

    /// Tells whether the settings need writing, and counts them as written from now on.
    pub fn take_dirty(&mut self) -> (r: bool)
        ensures
            r == old(self).dirty(),
            !final(self).dirty(),
            final(self).database_path() == old(self).database_path(),
    {
        let r = self.is_dirty;
        self.is_dirty = false;
        r
    }
}

} // verus!
