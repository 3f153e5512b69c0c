use vstd::prelude::*;

use crate::config::strs;
use crate::error::{err_of, ErrorView, InstallerError, Result};
use crate::text::{find, find_str, is_prefix, slice, starts_with, trim, trimmed};
use crate::vars::VariableMap;

verus! {

pub open spec fn dashes() -> Seq<char> {
    seq!['-', '-']
}

/// Reads variable overrides from the tokens after the command, from index
/// `i` on: `--name=value`, or `--name` followed by the value as the next
/// token; a bare `--` is skipped. `pending` is a name still waiting for its
/// value. The result is the overrides, or the message of the first problem.
pub open spec fn overrides_from(
    tokens: Seq<Seq<char>>,
    i: int,
    pending: Option<Seq<char>>,
    acc: Map<Seq<char>, Seq<char>>,
) -> core::result::Result<Map<Seq<char>, Seq<char>>, Seq<char>>
    decreases tokens.len() - i,
{
    if i < 0 || i >= tokens.len() {
        match pending {
            Some(n) => Err("Variable flag '--"@ + n + "' requires a value"@),
            None => Ok(acc),
        }
    } else {
        let t = tokens[i];
        match pending {
            Some(n) => if is_prefix(dashes(), t) {
                Err("Variable flag '--"@ + n + "' missing value. Followed by '"@ + t + "'"@)
            } else {
                overrides_from(tokens, i + 1, None, acc.insert(n, t))
            },
            None => if t == dashes() {
                overrides_from(tokens, i + 1, None, acc)
            } else if is_prefix(dashes(), t) {
                let flag = t.subrange(2, t.len() as int);
                if flag.len() == 0 {
                    Err("Variable flag cannot be empty"@)
                } else {
                    match find(flag, seq!['=']) {
                        Some(k) => if k < 0 || k >= flag.len() {
                            Err("Variable flag cannot be empty"@)
                        } else if trimmed(flag.subrange(0, k)).len() == 0 {
                            Err("Variable flag name cannot be empty"@)
                        } else {
                            overrides_from(
                                tokens,
                                i + 1,
                                None,
                                acc.insert(trimmed(flag.subrange(0, k)), flag.subrange(k + 1, flag.len() as int)),
                            )
                        },
                        None => overrides_from(tokens, i + 1, Some(flag), acc),
                    }
                }
            } else {
                Err("Unexpected variable token '"@ + t + "'. Variable flags must start with '--'"@)
            },
        }
    }
}

fn quoted(a: &str, b: &String, c: &str) -> (r: String)
    ensures
        r@ == a@ + b@ + c@,
{
    let mut s = String::from_str(a);
    s.append(b.as_str());
    s.append(c);
    s
}

/// The variable overrides given on the command line.
pub fn parse_variable_overrides(tokens: &[String]) -> (r: Result<VariableMap>)
    ensures
        match overrides_from(strs(tokens@), 0, None, Map::empty()) {
            Ok(m) => r is Ok && r->Ok_0.wf() && r->Ok_0@ == m,
            Err(msg) => err_of(r) == Some(ErrorView::Cli(msg)),
        },
{
    proof {
        reveal_strlit("--");
        reveal_strlit("=");
        assert("--"@ =~= dashes());
        assert("="@ =~= seq!['=']);
    }
    let ghost ts = strs(tokens@);
    let mut overrides = VariableMap::new();
    let mut pending: Option<String> = None;
    let mut i: usize = 0;
    while i < tokens.len()
        invariant
            ts == strs(tokens@),
            "--"@ == dashes(),
            "="@ == seq!['='],
            0 <= i <= tokens@.len(),
            overrides.wf(),
            overrides_from(ts, 0, None, Map::empty()) == overrides_from(
                ts,
                i as int,
                match pending {
                    Some(p) => Some(p@),
                    None => None,
                },
                overrides@,
            ),
        decreases tokens@.len() - i,
    {
        let token = &tokens[i];
        assert(ts[i as int] == token@);
        let was = pending;
        pending = None;
        match was {
            Some(name) => {
                if starts_with(token.as_str(), "--") {
                    let mut m = quoted("Variable flag '--", &name, "' missing value. Followed by '");
                    m.append(token.as_str());
                    m.append("'");
                    return Err(InstallerError::Cli(m));
                }
                overrides.insert(name, token.clone());
            },
            None => {
                if *token == String::from_str("--") {
                } else if starts_with(token.as_str(), "--") {
                    let n = token.as_str().unicode_len();
                    let flag = slice(token.as_str(), 2, n);
                    let m = flag.as_str().unicode_len();
                    if m == 0 {
                        return Err(InstallerError::Cli(String::from_str("Variable flag cannot be empty")));
                    }
                    match find_str(flag.as_str(), "=") {
                        Some(k) => {
                            let raw = slice(flag.as_str(), 0, k);
                            let name = trim(raw.as_str());
                            if name.as_str().unicode_len() == 0 {
                                return Err(InstallerError::Cli(String::from_str("Variable flag name cannot be empty")));
                            }
                            let value = slice(flag.as_str(), k + 1, m);
                            overrides.insert(name, value);
                        },
                        None => {
                            pending = Some(flag);
                        },
                    }
                } else {
                    let m = quoted(
                        "Unexpected variable token '",
                        token,
                        "'. Variable flags must start with '--'",
                    );
                    return Err(InstallerError::Cli(m));
                }
            },
        }
        i = i + 1;
    }
    match pending {
        Some(name) => Err(InstallerError::Cli(quoted("Variable flag '--", &name, "' requires a value"))),
        None => Ok(overrides),
    }
}

} // verus!
