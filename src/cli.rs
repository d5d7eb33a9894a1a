//! Command-line arguments of the report program: a configuration file, an
//! output file and a report format.
use vstd::prelude::*;
use crate::label::opt_view;
use crate::pairing::texts_view;
use crate::text::text;

verus! {

/// Output format of the report.
#[derive(Clone, Copy, Debug, PartialEq, Eq, Structural)]
pub enum Format {
    Json,
    Yaml,
}

/// Arguments of the report program.
#[derive(Clone, Debug, PartialEq)]
pub struct Cli {
    /// Path to the configuration file.
    pub config: String,
    /// Output file path.
    pub output: String,
    /// Output format of the report.
    pub format: Format,
}

/// Why the arguments were refused.
#[derive(Clone, Debug, PartialEq)]
pub enum CliError {
    /// The argument parser refused the arguments; its message.
    Usage(String),
    /// No configuration file was given.
    MissingConfig,
    /// The format is neither `json` nor `yaml`.
    UnknownFormat(String),
}

/// What clap's `Command::try_get_matches_from` reads from `args` for a
/// command with one value-taking option per long name: the value of each
/// option, or nothing where the arguments are refused.
pub uninterp spec fn clap_reading(
    args: Seq<Seq<char>>,
    shorts: Seq<char>,
    longs: Seq<Seq<char>>,
) -> Option<Seq<Option<Seq<char>>>>;

pub open spec fn lower_letter(c: char) -> bool {
    'a' <= c && c <= 'z'
}

/// Option names that clap accepts together: lower-case letters, each name
/// once, none taken by the help flag.
pub open spec fn option_names_fit(shorts: Seq<char>, longs: Seq<Seq<char>>) -> bool {
    &&& shorts.len() == longs.len()
    &&& forall|i: int| 0 <= i < shorts.len() ==> lower_letter(#[trigger] shorts[i]) && shorts[i] != 'h'
    &&& forall|i: int|
        0 <= i < longs.len() ==> (#[trigger] longs[i]).len() > 0 && longs[i] != "help"@ && forall|
            k: int,
        | 0 <= k < longs[i].len() ==> lower_letter(#[trigger] longs[i][k])
    &&& forall|i: int, j: int|
        0 <= i < j < shorts.len() ==> #[trigger] shorts[i] != #[trigger] shorts[j] && longs[i]
            != longs[j]
}

/// Relies on clap's `Command::try_get_matches_from`, with an option taking one
/// value for each long name (also its id) and short name, and on
/// `ArgMatches::get_one`: the value given for each option, or the parser's
/// message where it refuses the arguments.
#[verifier::external_body]
fn read_options(args: &Vec<String>, shorts: &Vec<char>, longs: &Vec<String>) -> (r: Result<
    Vec<Option<String>>,
    String,
>)
    requires
        option_names_fit(shorts@, texts_view(longs@)),
    ensures
        match clap_reading(texts_view(args@), shorts@, texts_view(longs@)) {
            Some(vals) => r matches Ok(v) && v@.len() == vals.len() && forall|i: int|
                0 <= i < vals.len() ==> opt_view(#[trigger] v@[i]) == vals[i],
            None => r is Err,
        },
        r matches Ok(v) ==> v@.len() == longs@.len(),
{
    let mut cmd = clap::Command::new("report");
    for i in 0..longs.len() {
        cmd = cmd.arg(clap::Arg::new(longs[i].clone()).short(shorts[i]).long(longs[i].clone()));
    }
    match cmd.try_get_matches_from(args) {
        Ok(m) => Ok(longs.iter().map(|id| m.get_one::<String>(id).cloned()).collect()),
        Err(e) => Err(e.to_string()),
    }
}

/// The arguments that the option values give: the configuration is required,
/// the output defaults to `report.json` and the format to `json`.
pub open spec fn cli_of(
    config: Option<Seq<char>>,
    output: Option<Seq<char>>,
    format: Option<Seq<char>>,
) -> Result<(Seq<char>, Seq<char>, Format), Option<Seq<char>>> {
    match config {
        None => Err(None),
        Some(c) => {
            let out = match output {
                Some(o) => o,
                None => "report.json"@,
            };
            match format {
                None => Ok((c, out, Format::Json)),
                Some(f) => if f == "json"@ {
                    Ok((c, out, Format::Json))
                } else if f == "yaml"@ {
                    Ok((c, out, Format::Yaml))
                } else {
                    Err(Some(f))
                },
            }
        },
    }
}

/// Whether `r` is what `cli_of` gives: the arguments, or `MissingConfig`
/// (`Err(None)`), or `UnknownFormat` (`Err(Some(f))`).
pub open spec fn cli_matches(
    r: Result<Cli, CliError>,
    spec: Result<(Seq<char>, Seq<char>, Format), Option<Seq<char>>>,
) -> bool {
    match spec {
        Ok((c, o, f)) => r matches Ok(cli) && cli.config@ == c && cli.output@ == o && cli.format
            == f,
        Err(None) => r matches Err(CliError::MissingConfig),
        Err(Some(f)) => r matches Err(CliError::UnknownFormat(g)) && g@ == f,
    }
}

impl Cli {
    /// The arguments from the option values that the parser read.
    pub fn from_values(config: Option<String>, output: Option<String>, format: Option<String>) -> (r:
        Result<Cli, CliError>)
        ensures
            cli_matches(r, cli_of(opt_view(config), opt_view(output), opt_view(format))),
    {
        let config = match config {
            Some(c) => c,
            None => return Err(CliError::MissingConfig),
        };
        let output = match output {
            Some(o) => o,
            None => text("report.json"),
        };
        let format = match format {
            None => Format::Json,
            Some(f) => {
                let json = text("json");
                let yaml = text("yaml");
                if f == json {
                    Format::Json
                } else if f == yaml {
                    Format::Yaml
                } else {
                    return Err(CliError::UnknownFormat(f));
                }
            },
        };
        Ok(Cli { config, output, format })
    }

    /// Parses the program's arguments, the first being the program's name:
    /// `-c`/`--config`, `-o`/`--output` and `-f`/`--format`, each with a value.
    pub fn try_parse_from(args: &Vec<String>) -> (r: Result<Cli, CliError>)
        ensures
            match clap_reading(
                texts_view(args@),
                seq!['c', 'o', 'f'],
                seq!["config"@, "output"@, "format"@],
            ) {
                None => r matches Err(CliError::Usage(_)),
                Some(vals) => cli_matches(r, cli_of(vals[0], vals[1], vals[2])),
            },
    {
        let shorts: Vec<char> = vec!['c', 'o', 'f'];
        let longs: Vec<String> = vec![text("config"), text("output"), text("format")];
        proof {
            reveal_strlit("config");
            reveal_strlit("output");
            reveal_strlit("format");
            reveal_strlit("help");
            assert(shorts@ =~= seq!['c', 'o', 'f']);
            assert(texts_view(longs@) =~= seq!["config"@, "output"@, "format"@]);
            assert("config"@ =~= seq!['c', 'o', 'n', 'f', 'i', 'g']);
            assert("output"@ =~= seq!['o', 'u', 't', 'p', 'u', 't']);
            assert("format"@ =~= seq!['f', 'o', 'r', 'm', 'a', 't']);
            assert("help"@ =~= seq!['h', 'e', 'l', 'p']);
            assert("config"@ != "help"@ && "output"@ != "help"@ && "format"@ != "help"@);
            assert("config"@ != "output"@ && "config"@ != "format"@ && "output"@ != "format"@) by {
                assert("config"@[0] != "output"@[0]);
                assert("config"@[0] != "format"@[0]);
                assert("output"@[0] != "format"@[0]);
            }
        }
        let mut values = match read_options(args, &shorts, &longs) {
            Ok(v) => v,
            Err(message) => return Err(CliError::Usage(message)),
        };
        let format = values.pop().unwrap();
        let output = values.pop().unwrap();
        let config = values.pop().unwrap();
        Cli::from_values(config, output, format)
    }
}

} // verus!
