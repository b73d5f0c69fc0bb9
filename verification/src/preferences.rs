//! The application's preferences: the vault opened last and the grid's zoom
//! level. The application reads and writes them as JSON beside its executable.

use vstd::prelude::*;

verus! {

/// What the application remembers between runs.
#[derive(Clone, Debug)]
pub struct Preferences {
    pub last_vault: Option<String>,
    pub zoom_level: Option<u32>,
}

impl Default for Preferences {
    /// Nothing remembered.
    fn default() -> (res: Preferences)
        ensures
            res.last_vault is None,
            res.zoom_level is None,
    {
        Preferences { last_vault: None, zoom_level: None }
    }
}

impl Preferences {
    /// These preferences with the zoom level set to `level`.
    pub fn with_zoom_level(self, level: u32) -> (res: Preferences)
        ensures
            res.zoom_level == Some(level),
            res.last_vault == self.last_vault,
    {
        Preferences { zoom_level: Some(level), ..self }
    }

    /// These preferences with `path` as the vault opened last.
    pub fn with_last_vault(self, path: &str) -> (res: Preferences)
        ensures
            res.last_vault matches Some(p) && p@ == path@,
            res.zoom_level == self.zoom_level,
    {
        Preferences { last_vault: Some(path.to_owned()), ..self }
    }

    /// The vault to offer reopening: the remembered path unless there is
    /// none or it is empty. (Whether it still holds a `media` folder is for
    /// the caller to check.)
    pub fn last_vault_candidate(&self) -> (res: Option<String>)
        ensures
            match self.last_vault {
                None => res is None,
                Some(p) => if p@.len() == 0 {
                    res is None
                } else {
                    res matches Some(r) && r@ == p@
                },
            },
    {
        match &self.last_vault {
            None => None,
            Some(p) => if p.as_str().unicode_len() == 0 {
                None
            } else {
                Some(p.clone())
            },
        }
    }
}

} // verus!
