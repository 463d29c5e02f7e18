//! The persisted configuration: the database URL and the selected project,
//! with its JSON form.

use vstd::prelude::*;

use crate::codec::ParseError;
use crate::json::{parse_string, parse_string_exec, quot, skip_ws, skip_ws_exec};
use crate::strings::push_char;

verus! {

pub struct Config {
    pub db_url: String,
    pub project_id: Option<String>,
}

pub ghost struct ConfigV {
    pub db_url: Seq<char>,
    pub project_id: Option<Seq<char>>,
}

impl View for Config {
    type V = ConfigV;

    open spec fn view(&self) -> ConfigV {
        ConfigV {
            db_url: self.db_url@,
            project_id: match self.project_id {
                Some(p) => Some(p@),
                None => None,
            },
        }
    }
}

impl Config {
    /// A fresh configuration: no database URL, no selected project.
    pub fn new() -> (r: Config)
        ensures
            r@.db_url.len() == 0,
            r@.project_id is None,
    {
        Config { db_url: String::new(), project_id: None }
    }
}

/// The compact JSON form of a configuration; an unset project id is written
/// as `null`.
pub open spec fn json_of_config(c: ConfigV) -> Seq<char> {
    seq!['{'] + quot("db_url"@) + seq![':'] + quot(c.db_url) + seq![','] + quot("project_id"@)
        + seq![':'] + (match c.project_id {
        Some(p) => quot(p),
        None => seq!['n', 'u', 'l', 'l'],
    }) + seq!['}']
}

/// Writes a configuration as compact JSON, exactly `json_of_config`.
pub fn config_to_json(c: &Config) -> (r: String)
    ensures
        r@ == json_of_config(c@),
{
    let mut out = String::new();
    push_char(&mut out, '{');
    crate::json::write_json_string(&mut out, "db_url");
    push_char(&mut out, ':');
    crate::json::write_json_string(&mut out, c.db_url.as_str());
    push_char(&mut out, ',');
    crate::json::write_json_string(&mut out, "project_id");
    push_char(&mut out, ':');
    match &c.project_id {
        Some(p) => {
            crate::json::write_json_string(&mut out, p.as_str());
        },
        None => {
            push_char(&mut out, 'n');
            push_char(&mut out, 'u');
            push_char(&mut out, 'l');
            push_char(&mut out, 'l');
        },
    }
    push_char(&mut out, '}');
    proof {
        assert(out@ =~= json_of_config(c@));
    }
    out
}

/// Parses a configuration document: `db_url` then `project_id` (a string or
/// `null`), with nothing but whitespace after the closing brace.
pub open spec fn parse_config_text(s: Seq<char>) -> Option<ConfigV> {
    let t = skip_ws(s);
    if t.len() == 0 || t[0] != '{' {
        None
    } else {
        match parse_string(t.drop_first()) {
            None => None,
            Some((k1, r1)) => {
                if k1 != "db_url"@ {
                    None
                } else {
                    let w1 = skip_ws(r1);
                    if w1.len() == 0 || w1[0] != ':' {
                        None
                    } else {
                        match parse_string(w1.drop_first()) {
                            None => None,
                            Some((url, r2)) => {
                                let w2 = skip_ws(r2);
                                if w2.len() == 0 || w2[0] != ',' {
                                    None
                                } else {
                                    match parse_string(w2.drop_first()) {
                                        None => None,
                                        Some((k2, r3)) => {
                                            if k2 != "project_id"@ {
                                                None
                                            } else {
                                                let w3 = skip_ws(r3);
                                                if w3.len() == 0 || w3[0] != ':' {
                                                    None
                                                } else {
                                                    let v = skip_ws(w3.drop_first());
                                                    let parsed: Option<
                                                        (Option<Seq<char>>, Seq<char>),
                                                    > = if v.len() > 0 && v[0] == '"' {
                                                        match parse_string(v) {
                                                            None => None,
                                                            Some((p, r4)) => Some((Some(p), r4)),
                                                        }
                                                    } else if v.len() >= 4 && v[0] == 'n' && v[1]
                                                        == 'u' && v[2] == 'l' && v[3] == 'l' {
                                                        Some((None, v.skip(4)))
                                                    } else {
                                                        None
                                                    };
                                                    match parsed {
                                                        None => None,
                                                        Some((pid, r4)) => {
                                                            let w4 = skip_ws(r4);
                                                            if w4.len() == 0 || w4[0] != '}' {
                                                                None
                                                            } else if skip_ws(
                                                                w4.drop_first(),
                                                            ).len() != 0 {
                                                                None
                                                            } else {
                                                                Some(
                                                                    ConfigV {
                                                                        db_url: url,
                                                                        project_id: pid,
                                                                    },
                                                                )
                                                            }
                                                        },
                                                    }
                                                }
                                            }
                                        },
                                    }
                                }
                            },
                        }
                    }
                }
            },
        }
    }
}

/// Reads a configuration back from JSON text.  Succeeds exactly on the texts
/// that `parse_config_text` accepts, returning exactly the configuration
/// they denote.
#[verifier::rlimit(100)]
pub fn config_from_json(s: &str) -> (r: Result<Config, ParseError>)
    ensures
        match r {
            Ok(c) => parse_config_text(s@) == Some(c@),
            Err(_) => parse_config_text(s@) is None,
        },
{
    let ghost whole = s@;
    proof {
        assert(whole.skip(0) =~= whole);
    }
    let n = s.unicode_len();
    let j0 = skip_ws_exec(s, 0);
    let ghost t = skip_ws(whole);
    if j0 >= n {
        return Err(ParseError);
    }
    proof {
        assert(t[0] == s@[j0 as int]);
        assert(t.drop_first() =~= s@.skip(j0 as int + 1));
    }
    if s.get_char(j0) != '{' {
        return Err(ParseError);
    }
    let (k1, j1) = match parse_string_exec(s, j0 + 1) {
        Some(p) => p,
        None => {
            return Err(ParseError);
        },
    };
    if !crate::strings::str_eq(k1.as_str(), "db_url") {
        return Err(ParseError);
    }
    let j2 = skip_ws_exec(s, j1);
    let ghost w1 = skip_ws(s@.skip(j1 as int));
    if j2 >= n {
        return Err(ParseError);
    }
    proof {
        assert(w1[0] == s@[j2 as int]);
        assert(w1.drop_first() =~= s@.skip(j2 as int + 1));
    }
    if s.get_char(j2) != ':' {
        return Err(ParseError);
    }
    let (url, j3) = match parse_string_exec(s, j2 + 1) {
        Some(p) => p,
        None => {
            return Err(ParseError);
        },
    };
    let j4 = skip_ws_exec(s, j3);
    let ghost w2 = skip_ws(s@.skip(j3 as int));
    if j4 >= n {
        return Err(ParseError);
    }
    proof {
        assert(w2[0] == s@[j4 as int]);
        assert(w2.drop_first() =~= s@.skip(j4 as int + 1));
    }
    if s.get_char(j4) != ',' {
        return Err(ParseError);
    }
    let (k2, j5) = match parse_string_exec(s, j4 + 1) {
        Some(p) => p,
        None => {
            return Err(ParseError);
        },
    };
    if !crate::strings::str_eq(k2.as_str(), "project_id") {
        return Err(ParseError);
    }
    let j6 = skip_ws_exec(s, j5);
    let ghost w3 = skip_ws(s@.skip(j5 as int));
    if j6 >= n {
        return Err(ParseError);
    }
    proof {
        assert(w3[0] == s@[j6 as int]);
        assert(w3.drop_first() =~= s@.skip(j6 as int + 1));
    }
    if s.get_char(j6) != ':' {
        return Err(ParseError);
    }
    let j7 = skip_ws_exec(s, j6 + 1);
    let ghost v = skip_ws(s@.skip(j6 as int + 1));
    let pid: Option<String>;
    let j8: usize;
    if j7 < n && s.get_char(j7) == '"' {
        proof {
            assert(v[0] == s@[j7 as int]);
            assert(skip_ws(s@.skip(j7 as int)) =~= v);
        }
        let (p, jx) = match parse_string_exec(s, j7) {
            Some(q) => q,
            None => {
                return Err(ParseError);
            },
        };
        pid = Some(p);
        j8 = jx;
    } else if n - j7 >= 4 {
        proof {
            assert(v =~= s@.skip(j7 as int));
            assert(v[0] == s@[j7 as int]);
            assert(v[1] == s@[j7 as int + 1]);
            assert(v[2] == s@[j7 as int + 2]);
            assert(v[3] == s@[j7 as int + 3]);
        }
        if s.get_char(j7) == 'n' && s.get_char(j7 + 1) == 'u' && s.get_char(j7 + 2) == 'l'
            && s.get_char(j7 + 3) == 'l' {
            pid = None;
            j8 = j7 + 4;
            proof {
                assert(v.skip(4) =~= s@.skip(j8 as int));
            }
        } else {
            return Err(ParseError);
        }
    } else {
        proof {
            assert(v =~= s@.skip(j7 as int));
            if v.len() > 0 {
                assert(v[0] == s@[j7 as int]);
            }
        }
        return Err(ParseError);
    }
    let j9 = skip_ws_exec(s, j8);
    let ghost w4 = skip_ws(s@.skip(j8 as int));
    if j9 >= n {
        return Err(ParseError);
    }
    proof {
        assert(w4[0] == s@[j9 as int]);
        assert(w4.drop_first() =~= s@.skip(j9 as int + 1));
    }
    if s.get_char(j9) != '}' {
        return Err(ParseError);
    }
    let j10 = skip_ws_exec(s, j9 + 1);
    if j10 < n {
        proof {
            assert(skip_ws(s@.skip(j9 as int + 1)).len() > 0);
        }
        return Err(ParseError);
    }
    proof {
        assert(skip_ws(s@.skip(j9 as int + 1)) =~= s@.skip(j10 as int));
    }
    Ok(Config { db_url: url, project_id: pid })
}

} // verus!
