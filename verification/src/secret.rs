//! The per-user secret subsystem. It validates and owns the directory
//! secrets would live in; the lookup itself is an explicit placeholder —
//! no user has a secret, and every lookup reports so — kept so that an
//! authentication layer can later stand in front of the query service
//! without touching the indexing pipeline.

use vstd::prelude::*;
use crate::watcher::RootStatus;

verus! {

/// The failures of the secret manager's setup.
#[derive(Debug, PartialEq, Eq, Structural)]
pub enum SecretError {
    /// The configured data directory does not exist.
    DataDirNotFound,
    /// The configured data directory exists but is not a directory.
    DataDirInvalid,
}

/// Manages the user secrets: holds the validated data directory.
#[derive(Debug)]
pub struct SecretManager {
    data_dir: String,
}

impl SecretManager {
    /// The validated data directory.
    pub closed spec fn data_dir(self) -> Seq<char> {
        self.data_dir@
    }

    /// Accepts the data directory only when the probe found an existing
    /// directory: a missing entry is `DataDirNotFound`, an entry that is
    /// not a directory `DataDirInvalid`.
    pub fn new(data_dir: &RootStatus) -> (r: Result<SecretManager, SecretError>)
        ensures
            r is Ok <==> (data_dir.present && data_dir.is_dir),
            r matches Ok(m) ==> m.data_dir() == data_dir.path@,
            !data_dir.present ==> (r matches Err(e) && e == SecretError::DataDirNotFound),
            data_dir.present && !data_dir.is_dir ==> (r matches Err(e) && e
                == SecretError::DataDirInvalid),
    {
        if !data_dir.present {
            return Err(SecretError::DataDirNotFound);
        }
        if !data_dir.is_dir {
            return Err(SecretError::DataDirInvalid);
        }
        Ok(SecretManager { data_dir: data_dir.path.clone() })
    }

    /// The path of the given user's secret. The secret subsystem is an
    /// explicit placeholder: no user has a secret, and every lookup
    /// reports so, whoever is asked about.
    pub fn get_path_for_user(user: &str) -> (r: Result<Option<String>, SecretError>)
        ensures
            r matches Ok(p) && p is None,
    {
        Ok(None)
    }
}

} // verus!
