//! The arguments of the commands, as plain data.
use vstd::prelude::*;

use crate::output::OutputFormat;
use crate::text::chars_of;

verus! {

/// The whole command line: output format and command.
pub struct Cli {
    pub format: OutputFormat,
    pub command: Command,
}

/// The commands.
pub enum Command {
    Init,
    List(ListArgs),
    Next(NextArgs),
    Show(ShowArgs),
    New(NewArgs),
    Edit(EditArgs),
    Lint(LintArgs),
    Archive(ArchiveArgs),
    Rebalance(RebalanceArgs),
    Fields(FieldsArgs),
    Types,
    Stats(StatsArgs),
    Search(SearchArgs),
    Scan(ScanArgs),
    Completions(CompletionsArgs),
    SchemaHelp,
}

/// Arguments of `list`.
pub struct ListArgs {
    pub artifact_type: String,
    pub status: Option<String>,
    pub project: Option<String>,
    pub kind: Option<String>,
    pub tag: Option<String>,
    pub limit: Option<usize>,
}

/// Arguments of `show`.
pub struct ShowArgs {
    pub id: String,
}

/// Arguments of `new`.
pub struct NewArgs {
    pub artifact_type: String,
    pub title: String,
    pub status: Option<String>,
    pub priority: Option<i64>,
    pub project: Option<String>,
    pub kind: Option<String>,
    pub tags: Option<Vec<String>>,
    pub extra_fields: Option<Vec<(String, String)>>,
}

/// Arguments of `edit`.
pub struct EditArgs {
    pub id: String,
    pub fields: Vec<(String, String)>,
    pub status: Option<String>,
    pub priority: Option<i64>,
    pub title: Option<String>,
    pub project: Option<String>,
    pub kind: Option<String>,
}

/// Arguments of `lint`.
pub struct LintArgs {
    pub target: Option<String>,
    pub fix: bool,
}

/// Arguments of `archive`.
pub struct ArchiveArgs {
    pub artifact_type: String,
}

/// Arguments of `rebalance`.
pub struct RebalanceArgs {
    pub artifact_type: String,
    pub gap: i64,
}

/// Arguments of `fields`.
pub struct FieldsArgs {
    pub artifact_type: String,
    pub field: Option<String>,
}

/// Arguments of `next`.
pub struct NextArgs {
    pub artifact_type: String,
    pub count: usize,
}

/// Arguments of `stats`.
pub struct StatsArgs {
    pub artifact_type: Option<String>,
    pub by: Option<String>,
}

/// Arguments of `search`.
pub struct SearchArgs {
    pub pattern: String,
    pub artifact_type: Option<String>,
}

/// The shells that completions can be generated for.
#[derive(Debug, Clone, Copy, PartialEq, Eq, Structural)]
pub enum Shell {
    Bash,
    Elvish,
    Fish,
    PowerShell,
    Zsh,
}

/// Arguments of `completions`.
pub struct CompletionsArgs {
    pub shell: Shell,
}

/// Arguments of `scan`.
pub struct ScanArgs {
    pub command: ScanCommand,
}

/// The `scan` subcommands.
pub enum ScanCommand {
    Types,
    List(ScanListArgs),
    Next(ScanNextArgs),
    Stats(ScanStatsArgs),
    Search(ScanSearchArgs),
    Lint,
}

/// Arguments of `scan list`.
pub struct ScanListArgs {
    pub types: String,
    pub status: Option<String>,
    pub project: Option<String>,
    pub limit: Option<usize>,
}

/// Arguments of `scan next`.
pub struct ScanNextArgs {
    pub types: String,
    pub count: usize,
}

/// Arguments of `scan stats`.
pub struct ScanStatsArgs {
    pub types: Option<String>,
    pub by: Option<String>,
}

/// Arguments of `scan search`.
pub struct ScanSearchArgs {
    pub pattern: String,
    pub types: Option<String>,
}

/// `i` is the position of the first `=` in `s`.
pub open spec fn first_eq(s: Seq<char>, i: int) -> bool {
    0 <= i < s.len() && s[i] == '=' && forall|j: int| 0 <= j < i ==> s[j] != '='
}

/// Splits `KEY=VALUE` at the first `=`.
pub fn parse_key_value(s: &str) -> (r: Result<(String, String), String>)
    ensures
        match r {
            Ok((k, v)) => exists|i: int| first_eq(s@, i) && k@ == s@.take(i) && v@ == s@.skip(i + 1),
            Err(msg) => !s@.contains('=') && msg@ == "invalid KEY=VALUE: no '=' found in '"@ + s@ + "'"@,
        },
{
    let x = chars_of(s);
    let mut i: usize = 0;
    while i < x.len()
        invariant
            x@ == s@,
            i <= x@.len(),
            forall|j: int| 0 <= j < i ==> x@[j] != '=',
        decreases x@.len() - i,
    {
        if x[i] == '=' {
            let mut k: Vec<char> = Vec::new();
            let mut a: usize = 0;
            while a < i
                invariant
                    a <= i < x@.len(),
                    k@ == x@.take(a as int),
                decreases i - a,
            {
                k.push(x[a]);
                assert(k@ =~= x@.take(a + 1));
                a += 1;
            }
            let mut v: Vec<char> = Vec::new();
            let mut b: usize = i + 1;
            while b < x.len()
                invariant
                    i + 1 <= b <= x@.len(),
                    v@ == x@.subrange(i + 1, b as int),
                decreases x@.len() - b,
            {
                v.push(x[b]);
                assert(v@ =~= x@.subrange(i + 1, b + 1));
                b += 1;
            }
            assert(first_eq(s@, i as int));
            assert(v@ =~= s@.skip(i + 1));
            return Ok((crate::text::string_of(&k), crate::text::string_of(&v)));
        }
        i += 1;
    }
    let mut msg = String::new();
    msg.append("invalid KEY=VALUE: no '=' found in '");
    msg.append(s);
    msg.append("'");
    Err(msg)
}

} // verus!
