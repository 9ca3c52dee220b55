//! The storage paths the backend is set up with.

use vstd::prelude::*;
use vstd::string::*;

verus! {

/// Where the backend keeps its database and the downloaded charts.
#[derive(Debug, PartialEq, Eq)]
pub struct Config {
    /// Path of the database file.
    pub database_path: String,
    /// Directory the charts are downloaded to.
    pub download_directory: String,
}

/// Model of a [`Config`].
pub struct ConfigModel {
    pub database_path: Seq<char>,
    pub download_directory: Seq<char>,
}

impl View for Config {
    type V = ConfigModel;

    open spec fn view(&self) -> ConfigModel {
        ConfigModel {
            database_path: self.database_path@,
            download_directory: self.download_directory@,
        }
    }
}

impl Clone for Config {
    fn clone(&self) -> (out: Self)
        ensures
            out@ == self@,
    {
        Config {
            database_path: self.database_path.clone(),
            download_directory: self.download_directory.clone(),
        }
    }
}

impl Config {
    /// The paths used where the system names no cache directory: both
    /// relative to the working directory.
    pub fn fallback() -> (out: Self)
        ensures
            out@ == (ConfigModel {
                database_path: "vac_cache.db"@,
                download_directory: "downloads"@,
            }),
    {
        Config {
            database_path: String::from_str("vac_cache.db"),
            download_directory: String::from_str("downloads"),
        }
    }

    /// Takes the download directory as the user entered it. The database
    /// path stays.
    pub fn set_download_directory(&mut self, directory: &str)
        ensures
            final(self)@ == (ConfigModel {
                database_path: old(self)@.database_path,
                download_directory: directory@,
            }),
    {
        self.download_directory = String::from_str(directory);
    }
}

} // verus!
