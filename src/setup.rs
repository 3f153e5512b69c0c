use vstd::prelude::*;

use crate::text::{trim, trimmed};

verus! {

/// Where the key that authorises this machine on the device comes from.
#[derive(Debug, Clone, PartialEq, Eq)]
pub enum AdbSource {
    LocalCopy { stored_path: String, original_filename: String },
    RemoteServer { url: String },
}

/// The settings kept between sessions of the graphical front end.
#[derive(Debug, Clone, PartialEq, Eq)]
pub struct SetupConfig {
    pub adb_source: Option<AdbSource>,
    pub github_token: Option<String>,
}

/// A failure of the settings store, by its message.
#[derive(Debug, Clone, PartialEq, Eq)]
pub struct SetupStateError(pub String);

pub enum AdbSourceView {
    LocalCopy { stored_path: Seq<char>, original_filename: Seq<char> },
    RemoteServer { url: Seq<char> },
}

pub struct SetupConfigView {
    pub adb_source: Option<AdbSourceView>,
    pub github_token: Option<Seq<char>>,
}

impl View for AdbSource {
    type V = AdbSourceView;

    open spec fn view(&self) -> AdbSourceView {
        match self {
            AdbSource::LocalCopy { stored_path, original_filename } => AdbSourceView::LocalCopy {
                stored_path: stored_path@,
                original_filename: original_filename@,
            },
            AdbSource::RemoteServer { url } => AdbSourceView::RemoteServer { url: url@ },
        }
    }
}

impl View for SetupConfig {
    type V = SetupConfigView;

    open spec fn view(&self) -> SetupConfigView {
        SetupConfigView {
            adb_source: match self.adb_source {
                Some(s) => Some(s@),
                None => None,
            },
            github_token: match self.github_token {
                Some(t) => Some(t@),
                None => None,
            },
        }
    }
}

fn copy_source(s: &AdbSource) -> (r: AdbSource)
    ensures
        r@ == s@,
{
    match s {
        AdbSource::LocalCopy { stored_path, original_filename } => AdbSource::LocalCopy {
            stored_path: stored_path.clone(),
            original_filename: original_filename.clone(),
        },
        AdbSource::RemoteServer { url } => AdbSource::RemoteServer { url: url.clone() },
    }
}

impl SetupConfig {
    /// No key source and no token.
    pub fn empty() -> (r: SetupConfig)
        ensures
            r@.adb_source is None,
            r@.github_token is None,
    {
        SetupConfig { adb_source: None, github_token: None }
    }

    /// A copy with the same settings.
    pub fn copied(&self) -> (r: SetupConfig)
        ensures
            r@ == self@,
    {
        SetupConfig {
            adb_source: match &self.adb_source {
                Some(s) => Some(copy_source(s)),
                None => None,
            },
            github_token: match &self.github_token {
                Some(t) => Some(t.clone()),
                None => None,
            },
        }
    }
}

/// The settings of the front end. Keeping them on disk, and sharing them
/// between threads, is up to the caller.
pub struct SetupState {
    inner: SetupConfig,
}

/// A token as stored: trimmed, and none at all when nothing is left.
pub open spec fn normalized_token(token: Option<Seq<char>>) -> Option<Seq<char>> {
    match token {
        Some(t) => if trimmed(t).len() == 0 {
            None
        } else {
            Some(trimmed(t))
        },
        None => None,
    }
}

impl SetupState {
    pub fn new(config: SetupConfig) -> (r: SetupState)
        ensures
            r.config_view() == config@,
    {
        SetupState { inner: config }
    }

    pub closed spec fn config_view(&self) -> SetupConfigView {
        self.inner@
    }

    /// The current settings.
    pub fn get_config(&self) -> (r: Result<SetupConfig, String>)
        ensures
            r is Ok && r->Ok_0@ == self.config_view(),
    {
        Ok(self.inner.copied())
    }

    /// Takes the key from a remote signing server at the given address,
    /// trimmed; an empty address is refused and changes nothing.
    pub fn set_remote_server(&mut self, url: String) -> (r: Result<SetupConfig, String>)
        ensures
            trimmed(url@).len() == 0 ==> r is Err && r->Err_0@ == "Remote signing server URL cannot be empty"@
                && final(self).config_view() == old(self).config_view(),
            trimmed(url@).len() > 0 ==> r is Ok && final(self).config_view() == (SetupConfigView {
                adb_source: Some(AdbSourceView::RemoteServer { url: trimmed(url@) }),
                ..old(self).config_view()
            }) && r->Ok_0@ == final(self).config_view(),
    {
        let t = trim(url.as_str());
        if t.as_str().unicode_len() == 0 {
            return Err(String::from_str("Remote signing server URL cannot be empty"));
        }
        self.inner.adb_source = Some(AdbSource::RemoteServer { url: t });
        Ok(self.inner.copied())
    }

    /// Stores the hosting-service token, trimmed; an empty or missing token
    /// clears it.
    pub fn set_github_token(&mut self, token: Option<String>) -> (r: Result<SetupConfig, String>)
        ensures
            final(self).config_view() == (SetupConfigView {
                github_token: normalized_token(
                    match token {
                        Some(t) => Some(t@),
                        None => None,
                    },
                ),
                ..old(self).config_view()
            }),
            r is Ok && r->Ok_0@ == final(self).config_view(),
    {
        let normalized = match token {
            Some(value) => {
                let t = trim(value.as_str());
                if t.as_str().unicode_len() == 0 {
                    None
                } else {
                    Some(t)
                }
            },
            None => None,
        };
        self.inner.github_token = normalized;
        Ok(self.inner.copied())
    }

    /// Forgets the key source.
    pub fn clear_adb_source(&mut self) -> (r: Result<SetupConfig, String>)
        ensures
            final(self).config_view() == (SetupConfigView { adb_source: None, ..old(self).config_view() }),
            r is Ok && r->Ok_0@ == final(self).config_view(),
    {
        self.inner.adb_source = None;
        Ok(self.inner.copied())
    }

    /// Takes the key from a stored copy.
    pub fn set_local_copy(&mut self, stored_path: String, original_filename: String) -> (r: Result<SetupConfig, String>)
        ensures
            final(self).config_view() == (SetupConfigView {
                adb_source: Some(AdbSourceView::LocalCopy {
                    stored_path: stored_path@,
                    original_filename: original_filename@,
                }),
                ..old(self).config_view()
            }),
            r is Ok && r->Ok_0@ == final(self).config_view(),
    {
        self.inner.adb_source = Some(AdbSource::LocalCopy { stored_path, original_filename });
        Ok(self.inner.copied())
    }
}

/// The name under which a copied key file is stored: `adb_key_`, the time
/// stamp, `_`, and the original name, with `\`, `/` and `:` replaced by `_`.
pub open spec fn stored_key_name(timestamp: Seq<char>, original: Seq<char>) -> Seq<char> {
    ("adb_key_"@ + timestamp + "_"@ + original).map_values(
        |c: char|
            if c == '\\' || c == '/' || c == ':' {
                '_'
            } else {
                c
            },
    )
}

/// The name under which a copied key file is stored.
pub fn key_file_name(timestamp: &String, original: &String) -> (r: String)
    ensures
        r@ == stored_key_name(timestamp@, original@),
{
    let mut raw = String::from_str("adb_key_");
    raw.append(timestamp.as_str());
    raw.append("_");
    raw.append(original.as_str());
    let n = raw.as_str().unicode_len();
    let mut out = String::new();
    let mut i: usize = 0;
    while i < n
        invariant
            n == raw@.len(),
            0 <= i <= n,
            out@ =~= raw@.subrange(0, i as int).map_values(
                |c: char|
                    if c == '\\' || c == '/' || c == ':' {
                        '_'
                    } else {
                        c
                    },
            ),
        decreases n - i,
    {
        let c = raw.as_str().get_char(i);
        if c == '\\' || c == '/' || c == ':' {
            out.append("_");
            proof {
                reveal_strlit("_");
            }
        } else {
            let piece = slice_char(raw.as_str(), i);
            out.append(piece.as_str());
        }
        i = i + 1;
    }
    assert(raw@.subrange(0, n as int) =~= raw@);
    out
}

fn slice_char(s: &str, i: usize) -> (r: String)
    requires
        i < s@.len(),
    ensures
        r@ == seq![s@[i as int]],
{
    let n = s.unicode_len();
    let r = crate::text::slice(s, i, i + 1);
    assert(r@ =~= seq![s@[i as int]]);
    r
}

/// The name a key file given as bytes is recorded under: the name given,
/// trimmed, or `adb_key` when nothing is left.
pub fn recorded_key_name(original: &String) -> (r: String)
    ensures
        trimmed(original@).len() == 0 ==> r@ == "adb_key"@,
        trimmed(original@).len() > 0 ==> r@ == trimmed(original@),
{
    let t = trim(original.as_str());
    if t.as_str().unicode_len() == 0 {
        String::from_str("adb_key")
    } else {
        t
    }
}

} // verus!
