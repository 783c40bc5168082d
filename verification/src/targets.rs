//! Make targets: reading them out of `make -pRrq` and answering
//! `ListTargets`.
use vstd::prelude::*;
use crate::order::{insert_sorted, strictly_sorted};
use crate::exec::{CommandOutcome, code_or_minus_one};
use crate::protocol::Response;
use crate::text::{
    chars_of, contains_char, cviews, find_char, find_in, is_ws, is_whitespace, join, join_chars,
    lines, lines_of, slice_chars, string_from, string_of, strings_of, trim, trim_chars, views,
    append_str, lemma_find_char_first,
};

verus! {

/// The colon at `colon` starts an assignment operator, `:=` or `::=`.
pub open spec fn colon_assigns(line: Seq<char>, colon: int) -> bool {
    ||| colon + 1 < line.len() && line[colon + 1] == '='
    ||| colon + 2 < line.len() && line[colon + 1] == ':' && line[colon + 2] == '='
}

/// The target that one line of make's database declares, if any: the text
/// before the first `:`, trimmed, unless the line is indented or a comment,
/// is a variable assignment (an `=` before that colon, as in `X = a:b` or
/// `X ?= a:b`, or the colon starting `:=` or `::=`), or the name is empty,
/// special (leading `.`) or a pattern (holds `%`).
pub open spec fn line_target(line: Seq<char>) -> Option<Seq<char>> {
    if line.len() > 0 && (is_ws(line[0]) || line[0] == '#') {
        None
    } else {
        match find_char(line, ':') {
            None => None,
            Some(colon) => {
                if line.take(colon).contains('=') || colon_assigns(line, colon) {
                    None
                } else {
                    let name = trim(line.take(colon));
                    if name.len() == 0 || name[0] == '.' || name.contains('%') {
                        None
                    } else {
                        Some(name)
                    }
                }
            },
        }
    }
}

/// The targets declared by `ls`, in order, repeats included.
pub open spec fn declared_targets(ls: Seq<Seq<char>>) -> Seq<Seq<char>>
    decreases ls.len(),
{
    if ls.len() == 0 {
        seq![]
    } else {
        let prev = declared_targets(ls.drop_last());
        match line_target(ls.last()) {
            Some(t) => prev.push(t),
            None => prev,
        }
    }
}

/// The target declared by one line.
fn target_of_line(line: &Vec<char>) -> (r: Option<Vec<char>>)
    ensures
        match r {
            Some(t) => line_target(line@) == Some(t@),
            None => line_target(line@) is None,
        },
{
    if line.len() > 0 && (is_whitespace(line[0]) || line[0] == '#') {
        return None;
    }
    let colon = match find_in(line, ':') {
        None => return None,
        Some(k) => k,
    };
    let head = slice_chars(line, 0, colon);
    assert(head@ == line@.take(colon as int));
    if contains_char(&head, '=') {
        return None;
    }
    if colon + 1 < line.len() && line[colon + 1] == '=' {
        return None;
    }
    if colon + 1 < line.len() && line[colon + 1] == ':' && colon + 2 < line.len() && line[colon + 2] == '=' {
        return None;
    }
    let name = trim_chars(&head);
    if name.len() == 0 || name[0] == '.' || contains_char(&name, '%') {
        return None;
    }
    Some(name)
}

/// The targets that make's database dump `output` declares: sorted, each
/// once, leaving out special targets (leading `.`), pattern rules (`%`),
/// variable assignments and comments.
pub fn parse_make_targets(output: &str) -> (r: Vec<String>)
    ensures
        strictly_sorted(views(r@)),
        views(r@).to_set() == declared_targets(lines(output@)).to_set(),
{
    let text = chars_of(output);
    let ls = lines_of(&text);
    let mut found: Vec<Vec<char>> = Vec::new();
    let mut i: usize = 0;
    while i < ls.len()
        invariant
            i <= ls.len(),
            cviews(ls@) == lines(output@),
            strictly_sorted(cviews(found@)),
            cviews(found@).to_set() == declared_targets(cviews(ls@).take(i as int)).to_set(),
        decreases ls.len() - i,
    {
        assert(cviews(ls@).take(i + 1).drop_last() =~= cviews(ls@).take(i as int));
        assert(cviews(ls@).take(i + 1).last() == ls@[i as int]@);
        let ghost prev = declared_targets(cviews(ls@).take(i as int));
        match target_of_line(&ls[i]) {
            Some(t) => {
                let ghost tv = t@;
                insert_sorted(&mut found, t);
                proof {
                    prev.lemma_push_to_set_commute(tv);
                }
            },
            None => {},
        }
        i += 1;
    }
    assert(cviews(ls@).take(ls.len() as int) =~= cviews(ls@));
    let r = strings_of(&found);
    r
}

/// The answer to `ListTargets`, given how `make -pRrq -f <file>` went: the
/// declared targets one per line (no stdout when there is none); `ok` even
/// when make exits with 2, which it does whenever targets are out of date.
pub open spec fn list_targets_response(r: Response, id: Seq<char>, outcome: CommandOutcome) -> bool {
    match outcome {
        CommandOutcome::Finished { stdout, stderr, exit_code } => {
            &&& r.id@ == id
            &&& r.ok
            &&& exists|ts: Seq<Seq<char>>|
                #![trigger join(ts, seq!['\n'])]
                strictly_sorted(ts) && ts.to_set() == declared_targets(lines(stdout@)).to_set()
                    && if join(ts, seq!['\n']).len() == 0 {
                    r.stdout is None
                } else {
                    r.stdout matches Some(o) && o@ == join(ts, seq!['\n'])
                }
            &&& if stderr@.len() == 0 {
                r.stderr is None
            } else {
                r.stderr matches Some(e) && e@ == stderr@
            }
            &&& r.exit_code == code_or_minus_one(exit_code)
            &&& r.error is None
        },
        CommandOutcome::SpawnFailed(e) | CommandOutcome::WaitFailed(e) => {
            &&& r.id@ == id
            &&& !r.ok
            &&& r.stdout is None
            &&& r.stderr matches Some(s) && s@ == "make not found or failed to spawn: "@ + e@
            &&& r.exit_code == -1
            &&& r.error matches Some(m) && m@ == e@
        },
    }
}

/// Answers `ListTargets` from the outcome of running make's database dump.
pub fn list_targets(id: &str, outcome: CommandOutcome) -> (r: Response)
    ensures
        list_targets_response(r, id@, outcome),
{
    match outcome {
        CommandOutcome::Finished { stdout, stderr, exit_code } => {
            let targets = parse_make_targets(stdout.as_str());
            let mut parts: Vec<Vec<char>> = Vec::new();
            let mut i: usize = 0;
            while i < targets.len()
                invariant
                    i <= targets.len(),
                    cviews(parts@) == views(targets@).take(i as int),
                decreases targets.len() - i,
            {
                let t = chars_of(targets[i].as_str());
                let ghost before = cviews(parts@);
                let ghost tv = t@;
                parts.push(t);
                assert(cviews(parts@) =~= before.push(tv));
                i += 1;
                assert(cviews(parts@) =~= views(targets@).take(i as int));
            }
            assert(views(targets@).take(targets.len() as int) =~= views(targets@));
            let joined = join_chars(&parts, "\n");
            proof {
                reveal_strlit("\n");
                assert("\n"@ =~= seq!['\n']);
            }
            let ghost ts = views(targets@);
            assert(join(ts, seq!['\n']) == joined@);
            let code = match exit_code {
                Some(c) => c,
                None => -1,
            };
            let stderr_opt = if stderr.as_str().is_empty() {
                None
            } else {
                Some(stderr)
            };
            let stdout_opt = if joined.len() == 0 {
                None
            } else {
                Some(string_of(&joined))
            };
            Response {
                id: string_from(id),
                ok: true,
                stdout: stdout_opt,
                stderr: stderr_opt,
                exit_code: code,
                error: None,
            }
        },
        CommandOutcome::SpawnFailed(e) | CommandOutcome::WaitFailed(e) => {
            let mut msg: Vec<char> = Vec::new();
            append_str(&mut msg, "make not found or failed to spawn: ");
            append_str(&mut msg, e.as_str());
            Response {
                id: string_from(id),
                ok: false,
                stdout: None,
                stderr: Some(string_of(&msg)),
                exit_code: -1,
                error: Some(e),
            }
        },
    }
}

/// A rule line `NAME: deps` declares `NAME`, trimmed, whatever characters
/// the name holds (dots included), unless it starts with `.` (a special
/// target), holds `%` (a pattern) or `=` (an assignment), or the colon
/// starts `:=` or `::=`.
pub proof fn lemma_rule_line_declares(name: Seq<char>, deps: Seq<char>)
    requires
        name.len() > 0,
        !is_ws(name[0]),
        name[0] != '#',
        name[0] != '.',
        !name.contains(':'),
        !name.contains('='),
        !name.contains('%'),
        !(deps.len() > 0 && deps[0] == '='),
        !(deps.len() > 1 && deps[0] == ':' && deps[1] == '='),
    ensures
        line_target(name + ":"@ + deps) == Some(trim(name)),
{
    reveal_strlit(":");
    let line = name + ":"@ + deps;
    let k = name.len() as int;
    assert(line[k] == ':');
    assert forall|j: int| 0 <= j < k implies line[j] != ':' by {
        assert(line[j] == name[j]);
        if line[j] == ':' {
            assert(name.contains(':'));
        }
    }
    lemma_find_char_first(line, ':', k);
    assert(line.take(k) =~= name);
    if k + 1 < line.len() {
        assert(line[k + 1] == deps[0]);
    }
    if k + 2 < line.len() {
        assert(line[k + 2] == deps[1]);
    }
    assert(!line.take(k).contains('='));
    crate::text::lemma_trim_shape(name);
    crate::text::lemma_trim_name_head(name);
    assert(!trim(name).contains('%')) by {
        crate::text::lemma_trim_sub(name);
        if trim(name).contains('%') {
            let j = choose|j: int| 0 <= j < trim(name).len() && trim(name)[j] == '%';
            assert(name.contains(trim(name)[j]));
        }
    }
}

/// Every target a line of the dump declares is among the declared
/// targets.
pub proof fn lemma_declared_contains(ls: Seq<Seq<char>>, i: int)
    requires
        0 <= i < ls.len(),
        line_target(ls[i]) is Some,
    ensures
        declared_targets(ls).contains(line_target(ls[i])->0),
    decreases ls.len(),
{
    let t = line_target(ls[i])->0;
    if i == ls.len() - 1 {
        assert(declared_targets(ls).last() == t);
    } else {
        assert(ls.drop_last()[i] == ls[i]);
        lemma_declared_contains(ls.drop_last(), i);
        let prev = declared_targets(ls.drop_last());
        let j = choose|j: int| 0 <= j < prev.len() && prev[j] == t;
        assert(declared_targets(ls)[j] == t);
    }
}

/// What a line declares is a plain target name: non-empty, not special
/// (leading `.`), not a pattern (`%`), not an assignment (`=`); and an
/// indented line or a comment declares nothing.
pub proof fn lemma_declared_names_are_plain(l: Seq<char>)
    ensures
        (l.len() > 0 && (is_ws(l[0]) || l[0] == '#')) ==> line_target(l) is None,
        line_target(l) matches Some(t) ==> t.len() > 0 && t[0] != '.' && !t.contains('%') && !t.contains('='),
{
    if let Some(t) = line_target(l) {
        let colon = find_char(l, ':')->0;
        crate::text::lemma_trim_sub(l.take(colon));
        if t.contains('=') {
            let j = choose|j: int| 0 <= j < t.len() && t[j] == '=';
            assert(l.take(colon).contains(t[j]));
        }
    }
}

} // verus!
