//! The npm registry.
use vstd::prelude::*;

use crate::config::PackageConfig;

use super::Error;

verus! {

/// The registry URL of the `latest` version of the npm package `name`.
pub open spec fn latest_url_of(name: Seq<char>) -> Seq<char> {
    "https://registry.npmjs.org/"@ + name + "/latest"@
}

/// The URL that gives the package's latest npm version; the package needs an `npm_package`.
pub fn latest_url(package: &PackageConfig) -> (r: Result<String, Error>)
    ensures
        match package.npm_package {
            Some(name) => r matches Ok(url) && url@ == latest_url_of(name@),
            None => r matches Err(e) && e == (Error::MissingNpmPackage { package: package.name }),
        },
{
    match &package.npm_package {
        None => Err(Error::MissingNpmPackage { package: package.name.clone() }),
        Some(name) => {
            let mut url = String::new();
            url.append("https://registry.npmjs.org/");
            url.append(name.as_str());
            url.append("/latest");
            Ok(url)
        },
    }
}

} // verus!
