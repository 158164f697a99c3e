use vstd::prelude::*;
use crate::ignore::starts_with;

verus! {

/// The formats secrets can be exported in.
#[derive(Debug, Clone, Copy, PartialEq, Eq)]
pub enum ExportFormat {
    /// `export NAME='value'` lines for a POSIX shell.
    Shell,
    /// `NAME="value"` lines for a `.env` file.
    Dotenv,
    /// One JSON object from names to values.
    Json,
}

impl ExportFormat {
    /// The format with the given name, if there is one.
    pub fn parse(name: &str) -> (r: Option<ExportFormat>)
        ensures
            r == if name@ == "shell"@ {
                Some(ExportFormat::Shell)
            } else if name@ == "dotenv"@ {
                Some(ExportFormat::Dotenv)
            } else if name@ == "json"@ {
                Some(ExportFormat::Json)
            } else {
                None::<ExportFormat>
            },
    {
        let n = String::from_str(name);
        if n == String::from_str("shell") {
            Some(ExportFormat::Shell)
        } else if n == String::from_str("dotenv") {
            Some(ExportFormat::Dotenv)
        } else if n == String::from_str("json") {
            Some(ExportFormat::Json)
        } else {
            None
        }
    }
}

/// `value` with each single quote closed, quoted in double quotes and
/// reopened, so that it can stand between single quotes in a shell.
pub open spec fn shell_escaped(value: Seq<char>) -> Seq<char>
    decreases value.len(),
{
    if value.len() == 0 {
        Seq::empty()
    } else {
        shell_escaped(value.drop_last()) + if value.last() == '\'' {
            "'\"'\"'"@
        } else {
            seq![value.last()]
        }
    }
}

/// `value` with each double quote and line feed written as a backslash
/// escape, so that it can stand between double quotes in a `.env` file.
pub open spec fn dotenv_escaped(value: Seq<char>) -> Seq<char>
    decreases value.len(),
{
    if value.len() == 0 {
        Seq::empty()
    } else {
        dotenv_escaped(value.drop_last()) + if value.last() == '"' {
            "\\\""@
        } else if value.last() == '\n' {
            "\\n"@
        } else {
            seq![value.last()]
        }
    }
}

/// Escapes a value for a shell's single quotes.
pub fn escape_shell(value: &str) -> (r: String)
    ensures
        r@ == shell_escaped(value@),
{
    let n = value.unicode_len();
    let mut out = String::new();
    let mut i: usize = 0;
    assert(value@.subrange(0, 0) =~= Seq::<char>::empty());
    while i < n
        invariant
            n == value@.len(),
            i <= n,
            out@ == shell_escaped(value@.subrange(0, i as int)),
        decreases n - i,
    {
        let c = value.get_char(i);
        proof {
            assert(value@.subrange(0, i + 1).drop_last() =~= value@.subrange(0, i as int));
        }
        if c == '\'' {
            out.append("'\"'\"'");
        } else {
            let one = value.substring_char(i, i + 1);
            assert(one@ =~= seq![c]);
            out.append(one);
        }
        i = i + 1;
    }
    assert(value@.subrange(0, n as int) =~= value@);
    out
}

/// Escapes a value for a `.env` file's double quotes.
pub fn escape_dotenv(value: &str) -> (r: String)
    ensures
        r@ == dotenv_escaped(value@),
{
    let n = value.unicode_len();
    let mut out = String::new();
    let mut i: usize = 0;
    assert(value@.subrange(0, 0) =~= Seq::<char>::empty());
    while i < n
        invariant
            n == value@.len(),
            i <= n,
            out@ == dotenv_escaped(value@.subrange(0, i as int)),
        decreases n - i,
    {
        let c = value.get_char(i);
        proof {
            assert(value@.subrange(0, i + 1).drop_last() =~= value@.subrange(0, i as int));
        }
        if c == '"' {
            out.append("\\\"");
        } else if c == '\n' {
            out.append("\\n");
        } else {
            let one = value.substring_char(i, i + 1);
            assert(one@ =~= seq![c]);
            out.append(one);
        }
        i = i + 1;
    }
    assert(value@.subrange(0, n as int) =~= value@);
    out
}

/// The line that exports one secret in a text format.
pub open spec fn export_line(format: ExportFormat, name: Seq<char>, value: Seq<char>) -> Seq<char> {
    match format {
        ExportFormat::Dotenv => name + "=\""@ + dotenv_escaped(value) + "\"\n"@,
        _ => "export "@ + name + "='"@ + shell_escaped(value) + "'\n"@,
    }
}

/// The lines that export the given secrets, in order.
pub open spec fn export_lines(format: ExportFormat, entries: Seq<(Seq<char>, Seq<char>)>) -> Seq<char>
    decreases entries.len(),
{
    if entries.len() == 0 {
        Seq::empty()
    } else {
        export_lines(format, entries.drop_last()) + export_line(
            format,
            entries.last().0,
            entries.last().1,
        )
    }
}

/// Why secrets could not be exported as text.
#[derive(Debug, Clone, Copy, PartialEq, Eq)]
pub enum ExportError {
    /// JSON is not a line format; it is written as one object.
    NotLineFormat,
}

/// The text export of the given secrets, in the order given, under a
/// header comment; JSON is refused.
pub fn export_text(format: ExportFormat, entries: &Vec<(String, String)>) -> (r: Result<String, ExportError>)
    ensures
        format == ExportFormat::Json <==> r is Err,
        r is Ok ==> r->Ok_0@ == "# dkdc secrets export\n"@ + export_lines(
            format,
            entries@.map_values(|e: (String, String)| (e.0@, e.1@)),
        ),
{
    if let ExportFormat::Json = format {
        return Err(ExportError::NotLineFormat);
    }
    let ghost es = entries@.map_values(|e: (String, String)| (e.0@, e.1@));
    let mut out = String::from_str("# dkdc secrets export\n");
    let ghost head = out@;
    let mut i: usize = 0;
    assert(es.subrange(0, 0) =~= Seq::<(Seq<char>, Seq<char>)>::empty());
    while i < entries.len()
        invariant
            format != ExportFormat::Json,
            es == entries@.map_values(|e: (String, String)| (e.0@, e.1@)),
            i <= entries@.len(),
            out@ == head + export_lines(format, es.subrange(0, i as int)),
        decreases entries@.len() - i,
    {
        let name = entries[i].0.as_str();
        let value = entries[i].1.as_str();
        let ghost before = out@;
        proof {
            assert(es.subrange(0, i + 1).drop_last() =~= es.subrange(0, i as int));
            assert(es.subrange(0, i + 1).last() == (name@, value@));
        }
        match format {
            ExportFormat::Dotenv => {
                let escaped = escape_dotenv(value);
                out.append(name);
                out.append("=\"");
                out.append(escaped.as_str());
                out.append("\"\n");
            },
            _ => {
                let escaped = escape_shell(value);
                out.append("export ");
                out.append(name);
                out.append("='");
                out.append(escaped.as_str());
                out.append("'\n");
            },
        }
        proof {
            assert(out@ =~= before + export_line(format, name@, value@));
        }
        i = i + 1;
    }
    assert(es.subrange(0, entries@.len() as int) =~= es);
    Ok(out)
}

/// The names that begin with `prefix`, in order; all of them when there is
/// no prefix.
pub open spec fn with_prefix(names: Seq<Seq<char>>, prefix: Option<Seq<char>>) -> Seq<Seq<char>>
    decreases names.len(),
{
    if names.len() == 0 {
        Seq::empty()
    } else {
        let r = with_prefix(names.drop_last(), prefix);
        let keep = match prefix {
            Some(p) => starts_with(names.last(), p),
            None => true,
        };
        if keep { r.push(names.last()) } else { r }
    }
}

fn begins_with(s: &str, p: &str) -> (r: bool)
    ensures
        r == starts_with(s@, p@),
{
    let sn = s.unicode_len();
    let pn = p.unicode_len();
    if pn > sn {
        return false;
    }
    let mut i: usize = 0;
    while i < pn
        invariant
            sn == s@.len(),
            pn == p@.len(),
            pn <= sn,
            i <= pn,
            forall|j: int| 0 <= j < i ==> s@[j] == p@[j],
        decreases pn - i,
    {
        if s.get_char(i) != p.get_char(i) {
            assert(s@.subrange(0, pn as int)[i as int] != p@[i as int]);
            return false;
        }
        i = i + 1;
    }
    assert(s@.subrange(0, pn as int) =~= p@);
    true
}

/// Keeps the names that begin with `prefix`, when one is given.
pub fn filter_by_prefix(names: Vec<String>, prefix: Option<&str>) -> (r: Vec<String>)
    ensures
        r@.map_values(|n: String| n@) == with_prefix(
            names@.map_values(|n: String| n@),
            match prefix {
                Some(p) => Some(p@),
                None => None::<Seq<char>>,
            },
        ),
{
    let ghost ns = names@.map_values(|n: String| n@);
    let ghost pv = match prefix {
        Some(p) => Some(p@),
        None => None::<Seq<char>>,
    };
    let mut out: Vec<String> = Vec::new();
    let mut i: usize = 0;
    assert(ns.subrange(0, 0) =~= Seq::<Seq<char>>::empty());
    assert(out@.map_values(|n: String| n@) =~= Seq::<Seq<char>>::empty());
    while i < names.len()
        invariant
            ns == names@.map_values(|n: String| n@),
            pv == match prefix {
                Some(p) => Some(p@),
                None => None::<Seq<char>>,
            },
            i <= names@.len(),
            out@.map_values(|n: String| n@) == with_prefix(ns.subrange(0, i as int), pv),
        decreases names@.len() - i,
    {
        let keep = match prefix {
            Some(p) => begins_with(names[i].as_str(), p),
            None => true,
        };
        let ghost before = out@.map_values(|n: String| n@);
        proof {
            assert(ns.subrange(0, i + 1).drop_last() =~= ns.subrange(0, i as int));
            assert(ns.subrange(0, i + 1).last() == names@[i as int]@);
        }
        if keep {
            out.push(names[i].clone());
            proof {
                assert(out@.map_values(|n: String| n@) =~= before.push(names@[i as int]@));
            }
        }
        i = i + 1;
    }
    assert(ns.subrange(0, names@.len() as int) =~= ns);
    out
}

/// The note written when nothing matched the export.
pub fn no_secrets_message(prefix: Option<&str>) -> (r: String)
    ensures
        r@ == match prefix {
            Some(p) => "# No secrets found with prefix '"@ + p@ + "'"@,
            None => "# No secrets found"@,
        },
{
    let mut out = String::from_str("# No secrets found");
    if let Some(p) = prefix {
        out.append(" with prefix '");
        out.append(p);
        out.append("'");
        proof {
            reveal_strlit("# No secrets found");
            reveal_strlit(" with prefix '");
            reveal_strlit("# No secrets found with prefix '");
            assert("# No secrets found"@ + " with prefix '"@ =~= "# No secrets found with prefix '"@);
        }
    }
    out
}

} // verus!
