use vstd::prelude::*;

use crate::config::strs;
use crate::engine::{Work, WorkView};
use crate::error::{err_of, ErrorView, InstallerError, Result};
use crate::text::{contains, contains_str, slice, trim, trimmed};

verus! {

/// `text` with each `'` written as `'"'"'`, so that it can stand inside a
/// single-quoted shell word.
pub open spec fn quote_escaped(text: Seq<char>) -> Seq<char>
    decreases text.len(),
{
    if text.len() == 0 {
        Seq::empty()
    } else {
        quote_escaped(text.drop_last()) + if text.last() == '\'' {
            "'\"'\"'"@
        } else {
            seq![text.last()]
        }
    }
}

/// The shell command that carries out a unit of work on the device, for the
/// units that are shell commands.
pub open spec fn shell_text(w: WorkView) -> Option<Seq<char>> {
    match w {
        WorkView::CreateDirectory { path } => Some("mkdir -p "@ + path),
        WorkView::RemoveDirectory { path } => Some("rm -rf "@ + path),
        WorkView::RemoveFile { path } => Some("rm -f "@ + path),
        WorkView::GrantPermission { package, permission } => Some(
            "pm grant "@ + package + " "@ + permission,
        ),
        WorkView::SetAppOp { package, operation, mode } => Some(
            "appops set "@ + package + " "@ + operation + " "@ + mode,
        ),
        WorkView::SetLauncher { component } => Some("cmd package set-home-activity "@ + component),
        WorkView::RunCommand { command, .. } => Some(command),
        WorkView::WriteFile { path, content } => Some(
            "echo '"@ + quote_escaped(content) + "' > "@ + path,
        ),
        WorkView::Chmod { mode, remote } => Some("chmod "@ + mode + " "@ + remote),
        WorkView::FileExists { path, .. } => Some("[ -f "@ + path + " ] && echo 'exists'"@),
        WorkView::ListPackages { search } => Some(
            "pm list packages | grep "@ + search + " | sed 's/package://'"@,
        ),
        WorkView::ListDirectory { path } => Some("ls -A "@ + path),
        _ => None,
    }
}

fn concat2(a: &str, b: &String) -> (r: String)
    ensures
        r@ == a@ + b@,
{
    let mut s = String::from_str(a);
    s.append(b.as_str());
    s
}

fn concat4(a: &str, b: &String, c: &str, d: &String) -> (r: String)
    ensures
        r@ == a@ + b@ + c@ + d@,
{
    let mut s = String::from_str(a);
    s.append(b.as_str());
    s.append(c);
    s.append(d.as_str());
    s
}

/// The text with its single quotes escaped for a single-quoted shell word.
pub fn escape_quotes(text: &str) -> (r: String)
    ensures
        r@ == quote_escaped(text@),
{
    let n = text.unicode_len();
    let mut out = String::new();
    let mut i: usize = 0;
    while i < n
        invariant
            n == text@.len(),
            0 <= i <= n,
            out@ == quote_escaped(text@.subrange(0, i as int)),
        decreases n - i,
    {
        assert(text@.subrange(0, i + 1).drop_last() =~= text@.subrange(0, i as int));
        if text.get_char(i) == '\'' {
            out.append("'\"'\"'");
        } else {
            let piece = slice(text, i, i + 1);
            assert(piece@ =~= seq![text@[i as int]]);
            out.append(piece.as_str());
        }
        i = i + 1;
    }
    assert(text@.subrange(0, n as int) =~= text@);
    out
}

/// The shell command for a unit of work, if the unit is one.
pub fn shell_command(w: &Work) -> (r: Option<String>)
    ensures
        match r {
            Some(c) => shell_text(w@) == Some(c@),
            None => shell_text(w@) is None,
        },
{
    match w {
        Work::CreateDirectory { path } => Some(concat2("mkdir -p ", path)),
        Work::RemoveDirectory { path } => Some(concat2("rm -rf ", path)),
        Work::RemoveFile { path } => Some(concat2("rm -f ", path)),
        Work::GrantPermission { package, permission } => Some(
            concat4("pm grant ", package, " ", permission),
        ),
        Work::SetAppOp { package, operation, mode } => {
            let mut s = concat4("appops set ", package, " ", operation);
            s.append(" ");
            s.append(mode.as_str());
            Some(s)
        },
        Work::SetLauncher { component } => Some(concat2("cmd package set-home-activity ", component)),
        Work::RunCommand { command, .. } => Some(command.clone()),
        Work::WriteFile { path, content } => {
            let escaped = escape_quotes(content.as_str());
            Some(concat4("echo '", &escaped, "' > ", path))
        },
        Work::Chmod { mode, remote } => Some(concat4("chmod ", mode, " ", remote)),
        Work::FileExists { path, .. } => {
            let mut s = concat2("[ -f ", path);
            s.append(" ] && echo 'exists'");
            Some(s)
        },
        Work::ListPackages { search } => {
            let mut s = concat2("pm list packages | grep ", search);
            s.append(" | sed 's/package://'");
            Some(s)
        },
        Work::ListDirectory { path } => Some(concat2("ls -A ", path)),
        _ => None,
    }
}

/// The two commands that remove a package, tried in turn and both allowed
/// to fail: for the primary user, then for all users.
pub fn uninstall_commands(package: &String) -> (r: (String, String))
    ensures
        r.0@ == "pm uninstall --user 0 "@ + package@,
        r.1@ == "pm uninstall "@ + package@,
{
    (concat2("pm uninstall --user 0 ", package), concat2("pm uninstall ", package))
}

/// Whether the output of the existence check reports the file.
pub fn reports_existing(output: &str) -> (r: bool)
    ensures
        r == contains(output@, "exists"@),
{
    contains_str(output, "exists")
}

/// The lines of a text as `str::lines` splits them: at each `\n`, with one
/// `\r` before it dropped, and no empty last line after a final `\n`.
pub open spec fn text_lines(s: Seq<char>) -> Seq<Seq<char>>
    decreases s.len(),
{
    if s.len() == 0 {
        Seq::empty()
    } else {
        let k = line_end(s, 0);
        let line = s.subrange(0, k);
        let line = if line.len() > 0 && line.last() == '\r' && k < s.len() {
            line.drop_last()
        } else {
            line
        };
        if 0 <= k < s.len() {
            seq![line] + text_lines(s.subrange(k + 1, s.len() as int))
        } else {
            seq![line]
        }
    }
}

/// The index of the first `\n` at or after `i`, or the length.
pub open spec fn line_end(s: Seq<char>, i: int) -> int
    decreases s.len() - i,
{
    if i < 0 || i >= s.len() || s[i] == '\n' {
        if i < 0 {
            0
        } else {
            i
        }
    } else {
        line_end(s, i + 1)
    }
}

/// The installed package names in a package listing: its non-empty lines,
/// trimmed.
pub open spec fn listed_packages(output: Seq<char>) -> Seq<Seq<char>> {
    text_lines(output).filter(|l: Seq<char>| l.len() > 0).map_values(|l: Seq<char>| trimmed(l))
}

proof fn lemma_line_end_bounds(s: Seq<char>, i: int)
    requires
        0 <= i <= s.len(),
    ensures
        i <= line_end(s, i) <= s.len(),
        line_end(s, i) < s.len() ==> s[line_end(s, i)] == '\n',
        forall|j: int| i <= j < line_end(s, i) ==> s[j] != '\n',
    decreases s.len() - i,
{
    if i < s.len() && s[i] != '\n' {
        lemma_line_end_bounds(s, i + 1);
    }
}

/// The package names in the output of a package listing.
pub fn parse_package_list(output: &str) -> (r: Vec<String>)
    ensures
        strs(r@) == listed_packages(output@),
{
    let ghost whole = output@;
    let mut rest = String::from_str(output);
    let mut out: Vec<String> = Vec::new();
    let ghost done: Seq<Seq<char>> = Seq::empty();
    assert(strs(out@) =~= Seq::<Seq<char>>::empty());
    loop
        invariant_except_break
            text_lines(whole) == done + text_lines(rest@),
        invariant
            strs(out@) == done.filter(|l: Seq<char>| l.len() > 0).map_values(|l: Seq<char>| trimmed(l)),
        ensures
            text_lines(whole) == done,
        decreases rest@.len(),
    {
        let n = rest.as_str().unicode_len();
        if n == 0 {
            assert(text_lines(rest@) =~= Seq::<Seq<char>>::empty());
            assert(done + text_lines(rest@) =~= done);
            break;
        }
        let mut k: usize = 0;
        while k < n && rest.as_str().get_char(k) != '\n'
            invariant
                n == rest@.len(),
                0 <= k <= n,
                line_end(rest@, 0) == line_end(rest@, k as int),
            decreases n - k,
        {
            k = k + 1;
        }
        proof {
            lemma_line_end_bounds(rest@, 0);
        }
        let mut line = slice(rest.as_str(), 0, k);
        let m = line.as_str().unicode_len();
        if m > 0 && line.as_str().get_char(m - 1) == '\r' && k < n {
            line = slice(line.as_str(), 0, m - 1);
            assert(line@ =~= rest@.subrange(0, k as int).drop_last());
        }
        let ghost lv = line@;
        let ghost prev = done;
        proof {
            done = done.push(lv);
            prev.lemma_filter_push(lv, |l: Seq<char>| l.len() > 0);
        }
        if line.as_str().unicode_len() > 0 {
            let t = trim(line.as_str());
            let ghost before = strs(out@);
            out.push(t);
            assert(strs(out@) =~= before.push(trimmed(lv)));
            assert(lv.len() > 0);
        }
        assert(strs(out@) =~= done.filter(|l: Seq<char>| l.len() > 0).map_values(|l: Seq<char>| trimmed(l)));
        if k < n {
            let next = slice(rest.as_str(), k + 1, n);
            assert(text_lines(rest@) == seq![lv] + text_lines(next@));
            assert(done + text_lines(next@) =~= prev + text_lines(rest@));
            rest = next;
        } else {
            assert(text_lines(rest@) == seq![lv]);
            assert(done =~= prev + text_lines(rest@));
            assert(text_lines(whole) == done);
            break;
        }
    }
    out
}

/// The state of an attached device as the transport reports it.
#[derive(Debug, Clone, PartialEq, Eq)]
pub enum DeviceState {
    Ready,
    Unauthorized,
    /// Any other state, by its name.
    Other(String),
}

/// The device to use among those attached: exactly one must be, and it must
/// be ready.
pub fn choose_device(states: &Vec<DeviceState>) -> (r: Result<usize>)
    ensures
        states@.len() == 0 ==> err_of(r) == Some(ErrorView::NoDevice),
        states@.len() > 1 ==> err_of(r) == Some(ErrorView::MultipleDevices),
        states@.len() == 1 ==> match states@[0] {
            DeviceState::Ready => r == Ok::<usize, InstallerError>(0),
            DeviceState::Unauthorized => err_of(r) == Some(
                ErrorView::Adb("Device unauthorized. Please enable USB debugging"@),
            ),
            DeviceState::Other(name) => err_of(r) == Some(ErrorView::Adb("Device not ready: "@ + name@)),
        },
{
    if states.len() == 0 {
        return Err(InstallerError::NoDevice);
    }
    if states.len() > 1 {
        return Err(InstallerError::MultipleDevices);
    }
    match &states[0] {
        DeviceState::Ready => Ok(0),
        DeviceState::Unauthorized => Err(
            InstallerError::Adb(String::from_str("Device unauthorized. Please enable USB debugging")),
        ),
        DeviceState::Other(name) => Err(InstallerError::Adb(concat2("Device not ready: ", name))),
    }
}

} // verus!
