use vstd::prelude::*;

use crate::errors::Error;
use crate::forth::parser::{stack_size_of, Parser};

verus! {

/// What the command line asks for: the program to run and, optionally, the
/// stack size in bytes.
#[derive(Debug, PartialEq)]
pub struct Config {
    pub file_path: String,
    pub stack_size: Option<usize>,
}

/// The stack size that the arguments ask for: a third argument that is a
/// valid `stack-size=N` setting, else none.
pub open spec fn requested_stack_size(args: Seq<String>) -> Option<usize> {
    if args.len() == 3 && args[2]@.len() > 0 {
        stack_size_of(args[2]@)
    } else {
        None
    }
}

impl Config {
    /// Reads the arguments of the program (its own name first). Without a
    /// non-empty path it fails with `MissingPathError`; a stack size that is
    /// not valid is ignored.
    pub fn build(args: &[String], parser: &Parser) -> (r: Result<Config, Error>)
        ensures
            (args@.len() < 2 || args@[1]@.len() == 0) ==> r == Err::<Config, Error>(
                Error::MissingPathError,
            ),
            !(args@.len() < 2 || args@[1]@.len() == 0) ==> (r matches Ok(c) && c.file_path@
                == args@[1]@ && c.stack_size == requested_stack_size(args@)),
    {
        if args.len() < 2 || args[1].as_str().is_empty() {
            return Err(Error::MissingPathError);
        }
        let mut stack_size = None;
        if args.len() == 3 && !args[2].as_str().is_empty() {
            if let Ok(size) = parser.parse_stack_size(args[2].as_str()) {
                stack_size = Some(size);
            }
        }
        let file_path = args[1].clone();
        Ok(Config { file_path, stack_size })
    }
}

/// The state of joining lines: the lines finished so far, the definition
/// being collected, and whether one is open.
pub open spec fn unify_step(
    state: (Seq<Seq<char>>, Seq<char>, bool),
    line: Seq<char>,
) -> (Seq<Seq<char>>, Seq<char>, bool) {
    let (done, current, open) = state;
    let opens = line.len() > 0 && line[0] == ':';
    let closes = line.len() > 0 && line.last() == ';';
    if opens && closes {
        (done.push(line), Seq::empty(), false)
    } else if opens {
        (done, current + line + seq![' '], true)
    } else if open {
        if closes {
            (done.push(current + line), Seq::empty(), false)
        } else {
            (done, current + line + seq![' '], true)
        }
    } else {
        (done.push(line), current, open)
    }
}

pub open spec fn unify_prefix(lines: Seq<Seq<char>>) -> (Seq<Seq<char>>, Seq<char>, bool)
    decreases lines.len(),
{
    if lines.len() == 0 {
        (Seq::empty(), Seq::empty(), false)
    } else {
        unify_step(unify_prefix(lines.drop_last()), lines.last())
    }
}

/// The logical lines of a program given as trimmed lines: a definition that
/// opens with `:` on one line and closes with `;` on a later one becomes one
/// line, its parts joined by single spaces; other lines stay as they are. A
/// definition left open at the end still becomes a line.
pub open spec fn unified_lines(lines: Seq<Seq<char>>) -> Seq<Seq<char>> {
    let (done, current, _) = unify_prefix(lines);
    if current.len() == 0 {
        done
    } else {
        done.push(current.drop_last())
    }
}

/// Joins the lines of multi-line definitions (see `unified_lines`).
pub fn unify_multiline_definitions(lines: &Vec<String>) -> (r: Vec<String>)
    ensures
        r@.map_values(|l: String| l@) == unified_lines(lines@.map_values(|l: String| l@)),
{
    let ghost lv = lines@.map_values(|l: String| l@);
    let mut unified: Vec<String> = Vec::new();
    let mut current = String::new();
    let mut in_definition = false;
    let mut k: usize = 0;
    proof {
        assert(lv.subrange(0, 0) =~= Seq::<Seq<char>>::empty());
        assert(unified@.map_values(|l: String| l@) =~= Seq::<Seq<char>>::empty());
    }
    while k < lines.len()
        invariant
            k <= lines@.len(),
            lv == lines@.map_values(|l: String| l@),
            unify_prefix(lv.subrange(0, k as int)) == (
                unified@.map_values(|l: String| l@),
                current@,
                in_definition,
            ),
            current@.len() > 0 ==> current@.last() == ' ',
        decreases lines@.len() - k,
    {
        let line = lines[k].as_str();
        let n = line.unicode_len();
        let opens = n > 0 && line.get_char(0) == ':';
        let closes = n > 0 && line.get_char(n - 1) == ';';
        let ghost before = unified@.map_values(|l: String| l@);
        proof {
            assert(lv.subrange(0, k + 1).drop_last() =~= lv.subrange(0, k as int));
            assert(lv.subrange(0, k + 1).last() == line@);
        }
        if opens && closes {
            unified.push(line.to_owned());
            current = String::new();
            in_definition = false;
        } else if opens {
            in_definition = true;
            current.append(line);
            current.append(" ");
        } else if in_definition {
            if closes {
                current.append(line);
                unified.push(current);
                current = String::new();
                in_definition = false;
            } else {
                current.append(line);
                current.append(" ");
            }
        } else {
            unified.push(line.to_owned());
        }
        proof {
            reveal_strlit(" ");
            assert(unified@.map_values(|l: String| l@) =~= unify_step(
                (before, unify_prefix(lv.subrange(0, k as int)).1, unify_prefix(lv.subrange(0, k as int)).2),
                line@,
            ).0);
            assert(current@ =~= unify_step(
                (before, unify_prefix(lv.subrange(0, k as int)).1, unify_prefix(lv.subrange(0, k as int)).2),
                line@,
            ).1);
        }
        k = k + 1;
    }
    proof {
        assert(lv.subrange(0, lines@.len() as int) =~= lv);
    }
    if current.as_str().unicode_len() > 0 {
        let len = current.as_str().unicode_len();
        let last = current.as_str().substring_char(0, len - 1).to_owned();
        unified.push(last);
        proof {
            assert(unified@.map_values(|l: String| l@) =~= unified_lines(lv));
        }
    }
    unified
}

} // verus!
