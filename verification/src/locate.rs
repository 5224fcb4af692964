//! Where the Herdr program is.

use crate::process::{from_utf8_lossy, lossy_text, Outcome};
use crate::text::{option_view, trim, trimmed};
use vstd::prelude::*;

verus! {

/// What to do next to find the program.
pub enum PathStep {
    /// Tell whether there is a file at the path.
    CheckFile(String),
    /// Ask `which` for the program.
    RunWhich,
    /// Nothing: the program is at the path, or nowhere.
    Done(Option<String>),
}

/// What to do next, in characters.
pub enum PathStepView {
    CheckFile(Seq<char>),
    RunWhich,
    Done(Option<Seq<char>>),
}

impl View for PathStep {
    type V = PathStepView;

    open spec fn view(&self) -> PathStepView {
        match *self {
            PathStep::CheckFile(path) => PathStepView::CheckFile(path@),
            PathStep::RunWhich => PathStepView::RunWhich,
            PathStep::Done(Some(path)) => PathStepView::Done(Some(path@)),
            PathStep::Done(None) => PathStepView::Done(None),
        }
    }
}

/// The configured path, if there is one.
pub open spec fn configured_candidate(configured: Option<Seq<char>>) -> Seq<Seq<char>> {
    match configured {
        Some(path) => if path.len() > 0 {
            seq![path]
        } else {
            seq![]
        },
        None => seq![],
    }
}

/// The path in the home directory, if there is one.
pub open spec fn home_candidate(home: Option<Seq<char>>) -> Seq<Seq<char>> {
    match home {
        Some(path) => seq![path + "/.local/bin/herdr"@],
        None => seq![],
    }
}

/// The paths at which the program may be, the first to try first.
pub open spec fn candidates(configured: Option<Seq<char>>, home: Option<Seq<char>>) -> Seq<
    Seq<char>,
> {
    configured_candidate(configured) + home_candidate(home) + seq![
        "/usr/local/bin/herdr"@,
        "/usr/bin/herdr"@,
        "/bin/herdr"@,
    ]
}

/// The paths at which the program may be, the first to try first.
fn candidate_paths(configured: Option<&str>, home: Option<&str>) -> (r: Vec<String>)
    ensures
        r.deep_view() == candidates(option_view(configured), option_view(home)),
{
    let mut paths: Vec<String> = Vec::new();
    match configured {
        Some(path) => if !path.is_empty() {
            paths.push(path.to_owned());
        },
        None => {},
    }
    assert(paths.deep_view() =~= configured_candidate(option_view(configured)));
    let ghost before = paths.deep_view();
    match home {
        Some(path) => {
            let mut user_local = path.to_owned();
            user_local.append("/.local/bin/herdr");
            paths.push(user_local);
        },
        None => {},
    }
    assert(paths.deep_view() =~= before + home_candidate(option_view(home)));
    paths.push("/usr/local/bin/herdr".to_owned());
    paths.push("/usr/bin/herdr".to_owned());
    paths.push("/bin/herdr".to_owned());
    assert(paths.deep_view() =~= candidates(option_view(configured), option_view(home)));
    paths
}

/// The position of the first `true`, or the length.
pub open spec fn first_true(answers: Seq<bool>) -> nat
    decreases answers.len(),
{
    if answers.len() == 0 || answers[0] {
        0
    } else {
        1 + first_true(answers.drop_first())
    }
}

fn find_true(answers: &[bool]) -> (r: usize)
    ensures
        r == first_true(answers@),
        r <= answers@.len(),
{
    let mut i: usize = 0;
    assert(answers@.skip(0) =~= answers@);
    while i < answers.len() && !answers[i]
        invariant
            i <= answers@.len(),
            first_true(answers@) == i + first_true(answers@.skip(i as int)),
        decreases answers@.len() - i,
    {
        assert(answers@.skip(i as int).drop_first() =~= answers@.skip(i + 1));
        i = i + 1;
    }
    i
}

/// The path that `which` wrote, if it found one.
pub open spec fn which_path(outcome: Outcome) -> Option<Seq<char>> {
    match outcome {
        Outcome::Finished(output) => {
            let path = trimmed(lossy_text(output.stdout@));
            if output.success && path.len() > 0 {
                Some(path)
            } else {
                None
            }
        },
        Outcome::NotRun(_) => None,
    }
}

fn path_from_which(outcome: &Outcome) -> (r: Option<String>)
    ensures
        match r {
            Some(path) => which_path(*outcome) == Some(path@),
            None => which_path(*outcome) is None,
        },
{
    match outcome {
        Outcome::Finished(output) => {
            let text = from_utf8_lossy(output.stdout.as_slice());
            let path = trim(text.as_str());
            if output.success && !path.is_empty() {
                Some(path.to_owned())
            } else {
                None
            }
        },
        Outcome::NotRun(_) => None,
    }
}

/// The next step to the program. Of the answers so far, the first ones tell which of `paths` are files,
/// and one more tells it of the path that `which` wrote.
pub open spec fn path_step(
    paths: Seq<Seq<char>>,
    answers: Seq<bool>,
    which: Option<Option<Seq<char>>>,
) -> PathStepView {
    let tried = answers.len();
    let found = first_true(answers);
    if found < tried && found < paths.len() {
        PathStepView::Done(Some(paths[found as int]))
    } else if tried < paths.len() {
        PathStepView::CheckFile(paths[tried as int])
    } else {
        match which {
            None => PathStepView::RunWhich,
            Some(None) => PathStepView::Done(None),
            Some(Some(path)) => if tried == paths.len() {
                PathStepView::CheckFile(path)
            } else if answers[paths.len() as int] {
                PathStepView::Done(Some(path))
            } else {
                PathStepView::Done(None)
            },
        }
    }
}

/// What `which` wrote, if it was run.
pub open spec fn which_view(which: Option<&Outcome>) -> Option<Option<Seq<char>>> {
    match which {
        Some(outcome) => Some(which_path(*outcome)),
        None => None,
    }
}

/// The next step to the program. `configured` is the value of `COKAC_HERDR_PATH` and `home` that of
/// `HOME`; `answers` are those to the files asked for so far, and `which` is what came of running it.
pub fn herdr_path(
    configured: Option<&str>,
    home: Option<&str>,
    answers: &[bool],
    which: Option<&Outcome>,
) -> (r: PathStep)
    ensures
        r@ == path_step(
            candidates(option_view(configured), option_view(home)),
            answers@,
            which_view(which),
        ),
{
    let paths = candidate_paths(configured, home);
    let ghost all = paths.deep_view();
    let tried: usize = answers.len();
    let found: usize = find_true(answers);
    if found < tried && found < paths.len() {
        assert(all[found as int] == paths@[found as int]@);
        return PathStep::Done(Some(paths[found].clone()));
    }
    if tried < paths.len() {
        assert(all[tried as int] == paths@[tried as int]@);
        return PathStep::CheckFile(paths[tried].clone());
    }
    match which {
        None => PathStep::RunWhich,
        Some(outcome) => match path_from_which(outcome) {
            None => PathStep::Done(None),
            Some(path) => if tried == paths.len() {
                PathStep::CheckFile(path)
            } else if answers[paths.len()] {
                PathStep::Done(Some(path))
            } else {
                PathStep::Done(None)
            },
        },
    }
}

/// Whether Herdr can be used: its program is found. `None` while the search goes on.
pub fn is_herdr_available(
    configured: Option<&str>,
    home: Option<&str>,
    answers: &[bool],
    which: Option<&Outcome>,
) -> (r: Option<bool>)
    ensures
        r == match path_step(
            candidates(option_view(configured), option_view(home)),
            answers@,
            which_view(which),
        ) {
            PathStepView::Done(path) => Some(path is Some),
            _ => None,
        },
{
    match herdr_path(configured, home, answers, which) {
        PathStep::Done(path) => Some(path.is_some()),
        _ => None,
    }
}

/// The first of the candidates that is a file is the one that is taken, and the search asks about no
/// other after it.
pub proof fn law_first_file_is_taken(
    paths: Seq<Seq<char>>,
    answers: Seq<bool>,
    which: Option<Option<Seq<char>>>,
    i: int,
)
    requires
        0 <= i < answers.len(),
        i < paths.len(),
        answers[i],
        forall|j: int| 0 <= j < i ==> !answers[j],
    ensures
        path_step(paths, answers, which) == PathStepView::Done(Some(paths[i])),
{
    lemma_first_true(answers, i);
}

proof fn lemma_first_true(answers: Seq<bool>, i: int)
    requires
        0 <= i < answers.len(),
        answers[i],
        forall|j: int| 0 <= j < i ==> !answers[j],
    ensures
        first_true(answers) == i,
    decreases answers.len(),
{
    if i > 0 {
        let rest = answers.drop_first();
        assert forall|j: int| 0 <= j < i - 1 implies !rest[j] by {
            assert(rest[j] == answers[j + 1]);
        }
        lemma_first_true(rest, i - 1);
    }
}

/// Where no candidate is a file, the search asks `which`.
pub proof fn law_which_is_asked_last(paths: Seq<Seq<char>>, answers: Seq<bool>)
    requires
        answers.len() == paths.len(),
        forall|j: int| 0 <= j < answers.len() ==> !answers[j],
    ensures
        path_step(paths, answers, None) == PathStepView::RunWhich,
{
    lemma_no_true(answers);
}

proof fn lemma_no_true(answers: Seq<bool>)
    requires
        forall|j: int| 0 <= j < answers.len() ==> !answers[j],
    ensures
        first_true(answers) == answers.len(),
    decreases answers.len(),
{
    if answers.len() > 0 {
        let rest = answers.drop_first();
        assert forall|j: int| 0 <= j < rest.len() implies !rest[j] by {
            assert(rest[j] == answers[j + 1]);
        }
        lemma_no_true(rest);
    }
}

} // verus!
