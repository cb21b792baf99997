//! The two shell dialects: which program to start and how to export a variable.
use vstd::prelude::*;
use vstd::string::*;
use crate::path::{last_index_before, last_index_of, lemma_last_index_range};

verus! {

/// A shell program, named by its file name.
#[derive(Debug)]
pub enum Shell {
    BashLike(String),
    Fish(String),
}

/// The last `/`-separated part of `s`.
pub open spec fn base_name(s: Seq<char>) -> Seq<char> {
    s.subrange(last_index_of(s, '/') + 1, s.len() as int)
}

pub open spec fn fish_name() -> Seq<char> {
    seq!['f', 'i', 's', 'h']
}

/// `set -gx KEY "VALUE"; ` for fish, `export KEY="VALUE"; ` otherwise.
pub open spec fn export_statement(fish: bool, key: Seq<char>, value: Seq<char>) -> Seq<char> {
    if fish {
        "set -gx "@ + key + " \""@ + value + "\"; "@
    } else {
        "export "@ + key + "=\""@ + value + "\"; "@
    }
}

/// The statements for `pairs`, in order, separated by single spaces.
pub open spec fn export_script(fish: bool, pairs: Seq<(String, String)>) -> Seq<char>
    decreases pairs.len(),
{
    if pairs.len() == 0 {
        Seq::empty()
    } else if pairs.len() == 1 {
        export_statement(fish, pairs[0].0@, pairs[0].1@)
    } else {
        export_script(fish, pairs.drop_last()) + " "@ + export_statement(
            fish,
            pairs.last().0@,
            pairs.last().1@,
        )
    }
}

impl Shell {
    /// The program's file name.
    pub open spec fn bin(&self) -> Seq<char> {
        match self {
            Shell::BashLike(b) => b@,
            Shell::Fish(b) => b@,
        }
    }

    pub open spec fn is_fish(&self) -> bool {
        self is Fish
    }

    /// The shell that the value of `SHELL` (or an explicit choice) names:
    /// its file name, recognised as fish when that name is `fish`.
    pub fn from_shell_var(var: &str) -> (r: Shell)
        ensures
            r.bin() == base_name(var@),
            r.is_fish() == (base_name(var@) == fish_name()),
    {
        let len = var.unicode_len();
        assert(var@.subrange(0, len as int) =~= var@);
        let start = match last_index_before(var, len, '/') {
            Some(k) => k + 1,
            None => 0,
        };
        proof {
            lemma_last_index_range(var@, '/');
        }
        let bin = String::from_str(var.substring_char(start, len));
        proof {
            reveal_strlit("fish");
        }
        let fish = String::from_str("fish");
        assert(fish@ =~= fish_name());
        if bin == fish {
            Shell::Fish(bin)
        } else {
            Shell::BashLike(bin)
        }
    }

    /// The program to start.
    pub fn command(&self) -> (r: &str)
        ensures
            r@ == self.bin(),
    {
        match self {
            Shell::BashLike(bin) => bin.as_str(),
            Shell::Fish(bin) => bin.as_str(),
        }
    }

    /// The statement that sets `key` to `value` in this dialect.
    pub fn export_statement(&self, key: &str, value: &str) -> (r: String)
        ensures
            r@ == export_statement(self.is_fish(), key@, value@),
    {
        proof {
            reveal_strlit("set -gx ");
            reveal_strlit(" \"");
            reveal_strlit("\"; ");
            reveal_strlit("export ");
            reveal_strlit("=\"");
        }
        match self {
            Shell::Fish(_) => String::from_str("set -gx ").concat(key).concat(" \"").concat(
                value,
            ).concat("\"; "),
            Shell::BashLike(_) => String::from_str("export ").concat(key).concat("=\"").concat(
                value,
            ).concat("\"; "),
        }
    }

    /// The statements for `pairs`, in order, separated by single spaces.
    pub fn export_script(&self, pairs: &Vec<(String, String)>) -> (r: String)
        ensures
            r@ == export_script(self.is_fish(), pairs@),
    {
        proof {
            reveal_strlit(" ");
        }
        let mut out = String::new();
        let mut i: usize = 0;
        while i < pairs.len()
            invariant
                i <= pairs@.len(),
                out@ == export_script(self.is_fish(), pairs@.subrange(0, i as int)),
            decreases pairs@.len() - i,
        {
            let ghost sub = pairs@.subrange(0, i + 1);
            assert(sub.drop_last() =~= pairs@.subrange(0, i as int));
            let stmt = self.export_statement(pairs[i].0.as_str(), pairs[i].1.as_str());
            if i == 0 {
                out = stmt;
            } else {
                out = out.concat(" ").concat(stmt.as_str());
            }
            i = i + 1;
        }
        assert(pairs@.subrange(0, pairs@.len() as int) =~= pairs@);
        out
    }
}

} // verus!
