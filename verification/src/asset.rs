//! Descriptions of the assets the proxy loads, and what goes wrong loading them.
use vstd::prelude::*;

verus! {

/// An asset's name, if it has one, and its path.
pub struct AssetInfo {
    name: Option<String>,
    path: String,
}

impl AssetInfo {
    /// The asset's name, if it has one.
    pub closed spec fn name(&self) -> Option<Seq<char>> {
        match self.name {
            Some(n) => Some(n@),
            None => None,
        }
    }

    /// The asset's path.
    pub closed spec fn path(&self) -> Seq<char> {
        self.path@
    }

    /// An unnamed asset at `path`.
    pub fn new(path: String) -> (r: Self)
        ensures
            r.name() is None,
            r.path() == path@,
    {
        AssetInfo { name: None, path }
    }

    /// The same asset, named `name`.
    pub fn with_name(self, name: String) -> (r: AssetInfo)
        ensures
            r.name() == Some(name@),
            r.path() == self.path(),
    {
        AssetInfo { name: Some(name), path: self.path }
    }

    /// Names the asset `name`.
    pub fn set_name(&mut self, name: String)
        ensures
            final(self).name() == Some(name@),
            final(self).path() == old(self).path(),
    {
        self.name = Some(name);
    }
}

/// What went wrong with an asset. The reasons of the failures are kept as
/// their messages.
pub enum AssetError {
    OpenFailed(AssetInfo, String),
    ReadFailed(AssetInfo, String),
    FormatNotSpecified(AssetInfo),
    ParseFailed(AssetInfo, String),
}

impl AssetError {
    /// The asset the error is about.
    pub open spec fn info(&self) -> AssetInfo {
        match self {
            AssetError::OpenFailed(i, _) => *i,
            AssetError::ReadFailed(i, _) => *i,
            AssetError::FormatNotSpecified(i) => *i,
            AssetError::ParseFailed(i, _) => *i,
        }
    }

    /// The same error, with the asset named `name`.
    pub fn with_name(self, name: String) -> (r: AssetError)
        ensures
            r.info().name() == Some(name@),
            r.info().path() == self.info().path(),
            match (self, r) {
                (AssetError::OpenFailed(_, a), AssetError::OpenFailed(_, b)) => a@ == b@,
                (AssetError::ReadFailed(_, a), AssetError::ReadFailed(_, b)) => a@ == b@,
                (AssetError::FormatNotSpecified(_), AssetError::FormatNotSpecified(_)) => true,
                (AssetError::ParseFailed(_, a), AssetError::ParseFailed(_, b)) => a@ == b@,
                _ => false,
            },
    {
        match self {
            AssetError::OpenFailed(mut info, e) => {
                info.set_name(name);
                AssetError::OpenFailed(info, e)
            },
            AssetError::ReadFailed(mut info, e) => {
                info.set_name(name);
                AssetError::ReadFailed(info, e)
            },
            AssetError::FormatNotSpecified(mut info) => {
                info.set_name(name);
                AssetError::FormatNotSpecified(info)
            },
            AssetError::ParseFailed(mut info, e) => {
                info.set_name(name);
                AssetError::ParseFailed(info, e)
            },
        }
    }
}

/// Whether assets are fetched and parsed on their own.
pub struct AssetConfig {
    pub auto_fetch: bool,
    pub do_parse: bool,
}

impl Default for AssetConfig {
    fn default() -> (r: Self)
        ensures
            r.auto_fetch && r.do_parse,
    {
        AssetConfig { auto_fetch: true, do_parse: true }
    }
}

} // verus!
