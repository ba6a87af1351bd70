//! A tamper-evidence marker attached to submissions: a shared secret plus
//! the detected platform name.

use vstd::prelude::*;
use crate::results_file::AsCsv;

verus! {

/// A submission's tamper-evidence marker.
#[derive(Debug, PartialEq, Eq)]
pub struct Fingerprint {
    /// Any string shared between grader and collector.
    pub secret: String,
    /// The name of the platform the submission was made on.
    pub platform: String,
}

impl Fingerprint {
    /// A fingerprint from the shared secret and the platform name the
    /// caller detected.
    pub fn from_secret(secret: &str, platform: &str) -> (f: Self)
        ensures
            f.secret@ == secret@,
            f.platform@ == platform@,
    {
        Fingerprint { secret: secret.to_owned(), platform: platform.to_owned() }
    }
}

/// The fingerprint's CSV cells: the secret, then the platform.
pub open spec fn fingerprint_csv(f: Fingerprint) -> Seq<char> {
    f.secret@ + ","@ + f.platform@
}

impl AsCsv for Fingerprint {
    fn as_csv(&self) -> (r: String)
        ensures
            r@ == fingerprint_csv(*self),
    {
        let mut r = self.secret.as_str().to_owned();
        r.append(",");
        r.append(self.platform.as_str());
        r
    }

    fn filename(&self) -> (r: String)
        ensures
            r@ == "fingerprint.csv"@,
    {
        "fingerprint.csv".to_owned()
    }

    fn header(&self) -> (r: String)
        ensures
            r@ == "secret,platform"@,
    {
        "secret,platform".to_owned()
    }
}

} // verus!
