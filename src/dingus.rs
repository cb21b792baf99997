//! An invocation: what to do, in which shell, and where configuration lives.
use vstd::prelude::*;
use vstd::string::*;
use crate::config::{decode_yaml, yaml_variables};
use crate::error::Error;
use crate::level::{decimal, level_key, next_level, next_level_string};
use crate::locate::{
    discover, extension_in, marker_in, nearest_marker, path_with_ext, resolve_explicit, with_ext,
    yaml_ext, yml_ext, Resolution,
};
use crate::path::{ancestors, join, join_path, lemma_ancestors_shrink, lemma_parent_shorter, parent_dir};
use crate::shell::Shell;
use crate::variables::VariableMap;

verus! {

/// What an invocation does.
#[derive(Debug, Clone, Copy, PartialEq, Eq)]
pub enum SubCommand {
    /// Print export statements for the caller's shell to evaluate.
    Print,
    /// Start a shell with the variables set.
    Session,
    /// Show the discovered file and the files of the configuration directory.
    List,
}

/// One invocation of the tool.
#[derive(Debug)]
pub struct Dingus {
    pub subcommand: SubCommand,
    pub shell: Shell,
    pub config_dir_path: String,
    pub given_config_file: Option<String>,
}

/// The views of an optional string.
pub open spec fn opt_view(o: Option<String>) -> Option<Seq<char>> {
    match o {
        Some(s) => Some(s@),
        None => None,
    }
}

impl Dingus {
    /// An invocation from its parts.
    pub fn new(
        subcommand: SubCommand,
        shell: Shell,
        config_dir_path: String,
        given_config_file: Option<String>,
    ) -> (r: Dingus)
        ensures
            r.subcommand == subcommand,
            r.shell == shell,
            r.config_dir_path == config_dir_path,
            r.given_config_file == given_config_file,
    {
        Dingus { subcommand, shell, config_dir_path, given_config_file }
    }

    /// Decodes configuration text into its variables.
    pub fn parse_dingus_file(contents: &str) -> (r: Result<VariableMap, Error>)
        ensures
            match yaml_variables(contents@) {
                Some(m) => r matches Ok(v) && v.wf() && v@ == m,
                None => r matches Err(Error::SerdeYamlError(_)),
            },
    {
        match decode_yaml(contents) {
            Ok(pairs) => Ok(VariableMap::from_distinct_pairs(pairs)),
            Err(why) => Err(Error::SerdeYamlError(why)),
        }
    }

    /// The `.yaml` and `.yml` variants of `filename` inside `dir`.
    pub fn config_variants(dir: &str, filename: &str) -> (r: (String, String))
        ensures
            r.0@ == with_ext(join(dir@, filename@), yaml_ext()),
            r.1@ == with_ext(join(dir@, filename@), yml_ext()),
    {
        proof {
            reveal_strlit("yaml");
            reveal_strlit("yml");
        }
        let p = join_path(dir, filename);
        assert("yaml"@ =~= yaml_ext());
        assert("yml"@ =~= yml_ext());
        (path_with_ext(p.as_str(), "yaml"), path_with_ext(p.as_str(), "yml"))
    }

    /// The configuration file that `filename` names inside `dir`. A name with a
    /// recognised extension is taken as it is; one with another extension is
    /// refused; one without extension picks whichever of its `.yaml` and `.yml`
    /// variants exists, and refuses to guess when both do.
    pub fn resolve_config_file(dir: &str, filename: &str, yaml_exists: bool, yml_exists: bool) -> (r:
        Result<String, Error>)
        ensures
            match resolve_explicit(dir@, filename@, yaml_exists, yml_exists) {
                Resolution::Found(p) => r matches Ok(q) && q@ == p,
                Resolution::Unrecognized => r matches Err(Error::UnrecognizedConfigExtension),
                Resolution::NotFound => r matches Err(Error::DingusFileNotFound),
                Resolution::Conflict(a, b) => r matches Err(
                    Error::ConflictingConfigPaths { one, two },
                ) && one@ == a && two@ == b,
            },
    {
        proof {
            reveal_strlit("yaml");
            reveal_strlit("yml");
        }
        let path = join_path(dir, filename);
        match extension_in(path.as_str()) {
            Some(e) => {
                let yaml = String::from_str("yaml");
                let yml = String::from_str("yml");
                assert(yaml@ =~= yaml_ext());
                assert(yml@ =~= yml_ext());
                if e == yaml || e == yml {
                    Ok(path)
                } else {
                    Err(Error::UnrecognizedConfigExtension)
                }
            },
            None => {
                let (a, b) = Dingus::config_variants(dir, filename);
                if yaml_exists && yml_exists {
                    Err(Error::ConflictingConfigPaths { one: a, two: b })
                } else if yaml_exists {
                    Ok(a)
                } else if yml_exists {
                    Ok(b)
                } else {
                    Err(Error::DingusFileNotFound)
                }
            },
        }
    }

    /// Sets the nesting depth in `variables` to one more than `ambient`, the
    /// value inherited from the enclosing environment (counted as zero when it
    /// is absent or not a number), replacing any value the file gave.
    pub fn set_dingus_level(variables: &mut VariableMap, ambient: &Option<String>)
        requires
            old(variables).wf(),
        ensures
            final(variables).wf(),
            final(variables)@ == old(variables)@.insert(
                level_key(),
                decimal(next_level(opt_view(*ambient))),
            ),
    {
        proof {
            reveal_strlit("DINGUS_LEVEL");
        }
        let key = String::from_str("DINGUS_LEVEL");
        assert(key@ =~= level_key());
        let value = next_level_string(ambient);
        variables.insert(key, value);
    }

    /// The directories that upward discovery visits from `here`, nearest first.
    pub fn candidate_directories(here: &str) -> (r: Vec<String>)
        ensures
            r@.len() == ancestors(here@).len(),
            forall|i: int| 0 <= i < r@.len() ==> #[trigger] r@[i]@ == ancestors(here@)[i],
    {
        let mut r: Vec<String> = Vec::new();
        let mut cur = String::from_str(here);
        let ghost whole = ancestors(here@);
        proof {
            lemma_ancestors_shrink(here@);
        }
        loop
            invariant
                whole == ancestors(here@),
                r@.len() + ancestors(cur@).len() == whole.len(),
                forall|i: int| 0 <= i < r@.len() ==> #[trigger] r@[i]@ == whole[i],
                forall|i: int|
                    0 <= i < ancestors(cur@).len() ==> #[trigger] ancestors(cur@)[i] == whole[r@.len()
                        + i],
            decreases cur@.len(),
        {
            proof {
                lemma_parent_shorter(cur@);
                lemma_ancestors_shrink(cur@);
            }
            let next = parent_dir(cur.as_str());
            let ghost a = ancestors(cur@);
            r.push(cur);
            match next {
                Some(q) => {
                    proof {
                        assert(a =~= seq![a[0]] + ancestors(q@));
                        assert forall|i: int| 0 <= i < ancestors(q@).len() implies #[trigger] ancestors(q@)[i] == whole[r@.len() + i] by {
                            assert(ancestors(q@)[i] == a[i + 1]);
                        }
                    }
                    cur = q;
                },
                None => {
                    assert(a.len() == 1);
                    return r;
                },
            }
        }
    }

    /// The marker found by walking up from `here`, where `present[k]` tells
    /// whether the `k`-th directory of `candidate_directories(here)` holds one:
    /// the nearest directory that does wins, and none gives `None`.
    pub fn recursively_walk_upwards_for_dingus_file(here: &str, present: &Vec<bool>) -> (r: Option<
        String,
    >)
        ensures
            opt_view(r) == discover(here@, present@),
    {
        let mut cur = String::from_str(here);
        let mut i: usize = 0;
        let bound = here.unicode_len();
        proof {
            lemma_ancestors_shrink(here@);
        }
        loop
            invariant
                nearest_marker(ancestors(here@), present@, 0) == nearest_marker(
                    ancestors(cur@),
                    present@,
                    i as int,
                ),
                i + cur@.len() <= bound,
            decreases cur@.len(),
        {
            proof {
                lemma_parent_shorter(cur@);
                lemma_ancestors_shrink(cur@);
            }
            let ghost a = ancestors(cur@);
            if i < present.len() && present[i] {
                return Some(marker_in(cur.as_str()));
            }
            match parent_dir(cur.as_str()) {
                Some(q) => {
                    assert(a.drop_first() =~= ancestors(q@));
                    cur = q;
                },
                None => {
                    assert(a.drop_first().len() == 0);
                    assert(nearest_marker(a.drop_first(), present@, i + 1) is None);
                    return None;
                },
            }
            i = i + 1;
        }
    }

    /// The file to decode: the explicit one if given, else the discovered one.
    pub fn config_file_to_parse(&self, discovered: Option<String>) -> (r: Result<String, Error>)
        ensures
            match self.given_config_file {
                Some(p) => r == Ok::<String, Error>(p),
                None => match discovered {
                    Some(p) => r == Ok::<String, Error>(p),
                    None => r matches Err(Error::DingusFileNotFound),
                },
            },
    {
        match &self.given_config_file {
            Some(p) => Ok(p.clone()),
            None => match discovered {
                Some(p) => Ok(p),
                None => Err(Error::DingusFileNotFound),
            },
        }
    }

    /// The variables of configuration text `contents` together with the
    /// nesting depth derived from `ambient`.
    pub fn get_environment(contents: &str, ambient: &Option<String>) -> (r: Result<
        VariableMap,
        Error,
    >)
        ensures
            match yaml_variables(contents@) {
                Some(m) => r matches Ok(v) && v.wf() && v@ == m.insert(
                    level_key(),
                    decimal(next_level(opt_view(*ambient))),
                ),
                None => r matches Err(Error::SerdeYamlError(_)),
            },
    {
        let mut environment = Dingus::parse_dingus_file(contents)?;
        Dingus::set_dingus_level(&mut environment, ambient);
        Ok(environment)
    }
}

} // verus!
