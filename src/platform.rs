use vstd::prelude::*;

verus! {

/// Facts about the machine the installer runs on, from the name of its
/// operating system (as `std::env::consts::OS` gives it).
pub struct Platform;

impl Platform {
    /// The file name extension of executables: `.exe` on Windows, none
    /// elsewhere.
    pub fn executable_extension(os: &str) -> (r: &'static str)
        ensures
            os@ == "windows"@ ==> r@ == ".exe"@,
            os@ != "windows"@ ==> r@.len() == 0,
    {
        proof {
            reveal_strlit("");
        }
        if String::from_str(os) == String::from_str("windows") {
            ".exe"
        } else {
            ""
        }
    }

    /// The user agent sent to the hosting service.
    pub fn user_agent(version: &str, os: &str) -> (r: String)
        ensures
            r@ == "PenumbraOS-Installer/"@ + version@ + " ("@ + os@ + ")"@,
    {
        let mut s = String::from_str("PenumbraOS-Installer/");
        s.append(version);
        s.append(" (");
        s.append(os);
        s.append(")");
        s
    }
}

} // verus!
