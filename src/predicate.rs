//! The predicate engine: an ordered list of criteria, evaluated from left to
//! right with short-circuiting.
//!
//! Type and modification-time criteria are decided here from an entry's
//! metadata. A name criterion needs a glob match and an execution criterion
//! needs a shell command to run: for those, evaluation stops with a [`Step`]
//! that asks the caller for the outcome, and [`Predicate::resume`] takes it
//! back. A criterion is only ever asked about once every criterion before it
//! has passed.

use vstd::prelude::*;


verus! {

/// The kinds of filesystem entry that `--type` can select.
#[derive(PartialEq, Eq, Structural, Clone, Copy, Debug)]
pub enum FileKind {
    BlockDevice,
    CharDevice,
    Directory,
    Fifo,
    Regular,
    Symlink,
    Socket,
}

/// The kind named by a one-letter type code: `b c d p f l s`.
pub open spec fn kind_of_code(code: Seq<char>) -> Option<FileKind> {
    if code == "b"@ {
        Some(FileKind::BlockDevice)
    } else if code == "c"@ {
        Some(FileKind::CharDevice)
    } else if code == "d"@ {
        Some(FileKind::Directory)
    } else if code == "p"@ {
        Some(FileKind::Fifo)
    } else if code == "f"@ {
        Some(FileKind::Regular)
    } else if code == "l"@ {
        Some(FileKind::Symlink)
    } else if code == "s"@ {
        Some(FileKind::Socket)
    } else {
        None
    }
}

impl FileKind {
    /// The kind that a `--type` code names, or `None` for an unknown code.
    pub fn from_code(code: &str) -> (r: Option<FileKind>)
        ensures
            r == kind_of_code(code@),
    {
        proof {
            reveal_strlit("b");
            reveal_strlit("c");
            reveal_strlit("d");
            reveal_strlit("p");
            reveal_strlit("f");
            reveal_strlit("l");
            reveal_strlit("s");
            assert("b"@ =~= seq!['b'] && "c"@ =~= seq!['c'] && "d"@ =~= seq!['d']);
            assert("p"@ =~= seq!['p'] && "f"@ =~= seq!['f'] && "l"@ =~= seq!['l']);
            assert("s"@ =~= seq!['s']);
        }
        if code.unicode_len() != 1 {
            return None;
        }
        let c = code.get_char(0);
        assert(code@ =~= seq![c]);
        if c == 'b' {
            Some(FileKind::BlockDevice)
        } else if c == 'c' {
            Some(FileKind::CharDevice)
        } else if c == 'd' {
            Some(FileKind::Directory)
        } else if c == 'p' {
            Some(FileKind::Fifo)
        } else if c == 'f' {
            Some(FileKind::Regular)
        } else if c == 'l' {
            Some(FileKind::Symlink)
        } else if c == 's' {
            Some(FileKind::Socket)
        } else {
            None
        }
    }
}

/// What the criteria read of a filesystem entry.
pub struct Entry {
    /// The entry's kind, as its metadata reports it.
    pub kind: FileKind,
    /// The entry's inode number.
    pub ino: u64,
    /// The modification time in whole seconds since the Unix epoch, or
    /// `None` where it could not be read.
    pub modified: Option<i64>,
    /// The entry's path as text, lossily where it is not valid UTF-8.
    pub text: String,
}

/// One filter criterion.
pub enum Criterion {
    /// Passes when the entry's kind is one of these.
    Type(Vec<FileKind>),
    /// Passes when the entry's last path component matches this glob.
    Name(String),
    /// Passes when the entry's age in days compares with `n` as `find -mtime n`.
    Mtime(i32),
    /// Runs the command, with each `{}` replaced by the entry's path; passes
    /// when it exits successfully, or in any case once it has run when
    /// `print_anyway` is set.
    Exec { command: String, print_anyway: bool },
}

/// The mathematical value of a [`Criterion`].
pub enum CriterionView {
    Type(Seq<FileKind>),
    Name(Seq<char>),
    Mtime(int),
    Exec { command: Seq<char>, print_anyway: bool },
}

impl View for Criterion {
    type V = CriterionView;

    open spec fn view(&self) -> CriterionView {
        match self {
            Criterion::Type(kinds) => CriterionView::Type(kinds@),
            Criterion::Name(pattern) => CriterionView::Name(pattern@),
            Criterion::Mtime(n) => CriterionView::Mtime(*n as int),
            Criterion::Exec { command, print_anyway } => CriterionView::Exec {
                command: command@,
                print_anyway: *print_anyway,
            },
        }
    }
}

/// The conjunction of criteria, evaluated in order.
pub struct Predicate {
    pub criteria: Vec<Criterion>,
}

impl View for Predicate {
    type V = Seq<CriterionView>;

    open spec fn view(&self) -> Seq<CriterionView> {
        self.criteria@.map_values(|c: Criterion| c@)
    }
}

/// The seconds in one day.
pub const SECONDS_PER_DAY: i128 = 86400;

/// Whether an age of `age` seconds satisfies `-mtime n`: with `n == 0`, less
/// than one day; with `n > 0`, more than `n` days; with `n < 0`, less than
/// `-n` days.
pub open spec fn age_satisfies(age: int, n: int) -> bool {
    if n == 0 {
        age < SECONDS_PER_DAY
    } else if n > 0 {
        age > n * SECONDS_PER_DAY
    } else {
        age < -n * SECONDS_PER_DAY
    }
}

/// `template` with every `{}` replaced by `path`, scanning from the left.
pub open spec fn substitute(template: Seq<char>, path: Seq<char>) -> Seq<char>
    decreases template.len(),
{
    if template.len() == 0 {
        Seq::empty()
    } else if template.len() >= 2 && template[0] == '{' && template[1] == '}' {
        path + substitute(template.subrange(2, template.len() as int), path)
    } else {
        seq![template[0]] + substitute(template.subrange(1, template.len() as int), path)
    }
}

/// How one criterion stands on an entry before anything outside is asked.
pub enum Stage {
    Pass,
    Fail,
    Unreadable,
    Ask,
}

/// How criterion `c` stands on `e` at time `now`: type and time criteria are
/// decided from the metadata; name and execution criteria must be asked.
pub open spec fn stage(c: CriterionView, e: Entry, now: int) -> Stage {
    match c {
        CriterionView::Type(kinds) => if kinds.contains(e.kind) {
            Stage::Pass
        } else {
            Stage::Fail
        },
        CriterionView::Mtime(n) => match e.modified {
            Some(m) => if age_satisfies(now - m, n) {
                Stage::Pass
            } else {
                Stage::Fail
            },
            None => Stage::Unreadable,
        },
        _ => Stage::Ask,
    }
}

/// Where an evaluation stands.
#[derive(PartialEq, Eq, Debug)]
pub enum Step {
    /// The predicate's result.
    Decided(bool),
    /// A time criterion was reached and the modification time is unknown.
    Unreadable,
    /// Criterion `.0` asks whether the entry's last path component matches
    /// glob `.1`.
    MatchName(usize, String),
    /// Criterion `.0` asks for shell command `.1` to be run.
    RunCommand(usize, String),
}

/// The mathematical value of a [`Step`].
pub enum StepView {
    Decided(bool),
    Unreadable,
    MatchName(int, Seq<char>),
    RunCommand(int, Seq<char>),
}

impl View for Step {
    type V = StepView;

    open spec fn view(&self) -> StepView {
        match self {
            Step::Decided(b) => StepView::Decided(*b),
            Step::Unreadable => StepView::Unreadable,
            Step::MatchName(k, p) => StepView::MatchName(*k as int, p@),
            Step::RunCommand(k, c) => StepView::RunCommand(*k as int, c@),
        }
    }
}

/// Evaluation of `cs` on `e` from criterion `i` on, up to the first criterion
/// that fails, cannot be read, or must be asked.
pub open spec fn step_from(cs: Seq<CriterionView>, e: Entry, now: int, i: int) -> StepView
    decreases cs.len() - i,
{
    if i < 0 || i >= cs.len() {
        StepView::Decided(true)
    } else {
        match stage(cs[i], e, now) {
            Stage::Pass => step_from(cs, e, now, i + 1),
            Stage::Fail => StepView::Decided(false),
            Stage::Unreadable => StepView::Unreadable,
            Stage::Ask => match cs[i] {
                CriterionView::Name(p) => StepView::MatchName(i, p),
                CriterionView::Exec { command, .. } => StepView::RunCommand(
                    i,
                    substitute(command, e.text@),
                ),
                _ => StepView::Decided(false),
            },
        }
    }
}

/// The outcome of a question that evaluation asked.
#[derive(PartialEq, Eq, Structural, Clone, Copy, Debug)]
pub enum Answer {
    /// Whether the glob matched.
    Matched(bool),
    /// The command ran; whether it exited successfully.
    Exited(bool),
    /// The command could not be launched.
    LaunchFailed,
}

/// Whether criterion `c` passes given the answer to its question.
pub open spec fn answer_passes(c: CriterionView, a: Answer) -> bool {
    match c {
        CriterionView::Name(_) => a == Answer::Matched(true),
        CriterionView::Exec { print_anyway, .. } => match a {
            Answer::Exited(success) => success || print_anyway,
            _ => false,
        },
        _ => false,
    }
}

/// `template` with every `{}` replaced by `path`.
pub fn substitute_path(template: &str, path: &str) -> (r: String)
    ensures
        r@ == substitute(template@, path@),
{
    let n = template.unicode_len();
    let mut r = String::new();
    let mut start: usize = 0;
    let mut i: usize = 0;
    assert(template@.subrange(0, n as int) =~= template@);
    assert(r@ + template@.subrange(0, 0) =~= Seq::<char>::empty());
    while i < n
        invariant
            n == template@.len(),
            start <= i <= n,
            r@ + template@.subrange(start as int, i as int) + substitute(
                template@.subrange(i as int, n as int),
                path@,
            ) == substitute(template@, path@),
        decreases n - i,
    {
        let ghost rest = template@.subrange(i as int, n as int);
        let c = template.get_char(i);
        if c == '{' && i + 1 < n && template.get_char(i + 1) == '}' {
            assert(rest.subrange(2, rest.len() as int) =~= template@.subrange(i + 2, n as int));
            r.append(template.substring_char(start, i));
            r.append(path);
            i = i + 2;
            start = i;
            assert(template@.subrange(start as int, i as int) =~= Seq::<char>::empty());
        } else {
            assert(rest.subrange(1, rest.len() as int) =~= template@.subrange(i + 1, n as int));
            assert(template@.subrange(start as int, i + 1) =~= template@.subrange(
                start as int,
                i as int,
            ).push(c));
            i = i + 1;
        }
    }
    r.append(template.substring_char(start, n));
    assert(substitute(template@.subrange(n as int, n as int), path@) =~= Seq::<char>::empty());
    r
}

/// Whether `kind` is one of `kinds`.
fn kind_listed(kinds: &Vec<FileKind>, kind: FileKind) -> (r: bool)
    ensures
        r == kinds@.contains(kind),
{
    let mut i: usize = 0;
    while i < kinds.len()
        invariant
            0 <= i <= kinds.len(),
            forall|j: int| 0 <= j < i ==> kinds@[j] != kind,
        decreases kinds.len() - i,
    {
        if kinds[i] == kind {
            return true;
        }
        i = i + 1;
    }
    false
}

/// Whether an entry modified at `modified` is `-mtime n` at time `now`, all
/// in seconds since the Unix epoch.
pub fn mtime_matches(modified: i64, now: i64, n: i32) -> (r: bool)
    ensures
        r == age_satisfies(now - modified, n as int),
{
    let age: i128 = now as i128 - modified as i128;
    let days: i128 = n as i128;
    if n == 0 {
        age < SECONDS_PER_DAY
    } else if n > 0 {
        age > days * SECONDS_PER_DAY
    } else {
        age < -days * SECONDS_PER_DAY
    }
}

/// One criterion flag, as the command line gives it.
pub enum Flag {
    /// `--type` with one type code.
    Type(FileKind),
    /// `--name` with a glob pattern.
    Name(String),
    /// `--mtime` with a day count.
    Mtime(i32),
    /// `--exec` with a command line.
    Exec(String),
}

/// The mathematical value of a [`Flag`].
pub enum FlagView {
    Type(FileKind),
    Name(Seq<char>),
    Mtime(int),
    Exec(Seq<char>),
}

impl View for Flag {
    type V = FlagView;

    open spec fn view(&self) -> FlagView {
        match self {
            Flag::Type(k) => FlagView::Type(*k),
            Flag::Name(p) => FlagView::Name(p@),
            Flag::Mtime(n) => FlagView::Mtime(*n as int),
            Flag::Exec(c) => FlagView::Exec(c@),
        }
    }
}

/// The values of a sequence of flags.
pub open spec fn flag_views(flags: Seq<Flag>) -> Seq<FlagView> {
    flags.map_values(|f: Flag| f@)
}

/// The type codes among `flags`, in order.
pub open spec fn type_codes(flags: Seq<FlagView>) -> Seq<FileKind>
    decreases flags.len(),
{
    if flags.len() == 0 {
        Seq::empty()
    } else {
        let before = type_codes(flags.drop_last());
        match flags.last() {
            FlagView::Type(k) => before.push(k),
            _ => before,
        }
    }
}

/// The criteria for `flags`, each in the place of its flag, where all type
/// codes form one criterion `Type(kinds)` in the place of the first type flag
/// (`seen` tells whether that place is already behind).
pub open spec fn placed(
    flags: Seq<FlagView>,
    kinds: Seq<FileKind>,
    seen: bool,
    print_anyway: bool,
) -> Seq<CriterionView>
    decreases flags.len(),
{
    if flags.len() == 0 {
        Seq::empty()
    } else {
        let rest = flags.drop_first();
        match flags[0] {
            FlagView::Type(_) => if seen {
                placed(rest, kinds, true, print_anyway)
            } else {
                seq![CriterionView::Type(kinds)] + placed(rest, kinds, true, print_anyway)
            },
            FlagView::Name(p) => seq![CriterionView::Name(p)] + placed(
                rest,
                kinds,
                seen,
                print_anyway,
            ),
            FlagView::Mtime(n) => seq![CriterionView::Mtime(n)] + placed(
                rest,
                kinds,
                seen,
                print_anyway,
            ),
            FlagView::Exec(c) => seq![CriterionView::Exec { command: c, print_anyway }] + placed(
                rest,
                kinds,
                seen,
                print_anyway,
            ),
        }
    }
}

/// The criteria that [`form_predicate`] builds from `flags`: one per flag,
/// in command-line order, except that the type codes accumulate into a
/// single type criterion standing where the first `--type` stood.
pub open spec fn formed(flags: Seq<FlagView>, print_anyway: bool) -> Seq<CriterionView> {
    placed(flags, type_codes(flags), false, print_anyway)
}

/// The type codes among `flags`, in order.
fn collect_type_codes(flags: &Vec<Flag>) -> (r: Vec<FileKind>)
    ensures
        r@ == type_codes(flag_views(flags@)),
{
    let mut kinds: Vec<FileKind> = Vec::new();
    let mut i: usize = 0;
    assert(flag_views(flags@).take(0) =~= Seq::<FlagView>::empty());
    while i < flags.len()
        invariant
            0 <= i <= flags.len(),
            kinds@ == type_codes(flag_views(flags@).take(i as int)),
        decreases flags.len() - i,
    {
        assert(flag_views(flags@).take(i + 1).drop_last() =~= flag_views(flags@).take(i as int));
        if let Flag::Type(k) = &flags[i] {
            kinds.push(*k);
        }
        i = i + 1;
    }
    assert(flag_views(flags@).take(flags.len() as int) =~= flag_views(flags@));
    kinds
}

/// Builds the predicate from the criterion flags in command-line order: each
/// name, mtime and exec flag gives one criterion in its place, and all type
/// codes form one criterion (any of them may match) in the place of the
/// first type flag. With no flags, every entry matches.
pub fn form_predicate(flags: Vec<Flag>, print_anyway: bool) -> (r: Predicate)
    ensures
        r@ == formed(flag_views(flags@), print_anyway),
{
    let ghost fs = flag_views(flags@);
    let mut kinds: Option<Vec<FileKind>> = Some(collect_type_codes(&flags));
    let ghost all_kinds = type_codes(fs);
    let mut r = Predicate { criteria: Vec::new() };
    let mut i: usize = 0;
    assert(fs.skip(0) =~= fs);
    assert(r@ =~= Seq::<CriterionView>::empty());
    while i < flags.len()
        invariant
            0 <= i <= flags.len(),
            fs == flag_views(flags@),
            kinds matches Some(k) ==> k@ == all_kinds,
            r@ + placed(fs.skip(i as int), all_kinds, kinds is None, print_anyway) == formed(
                fs,
                print_anyway,
            ),
        decreases flags.len() - i,
    {
        let ghost seen = kinds is None;
        let ghost before = r@;
        assert(fs.skip(i as int).drop_first() =~= fs.skip(i + 1));
        assert(fs.skip(i as int)[0] == flags@[i as int]@);
        match &flags[i] {
            Flag::Type(_) => {
                if let Some(k) = kinds.take() {
                    r.criteria.push(Criterion::Type(k));
                    assert(r@ =~= before.push(CriterionView::Type(all_kinds)));
                }
            },
            Flag::Name(p) => {
                r.criteria.push(Criterion::Name(p.clone()));
                assert(r@ =~= before.push(CriterionView::Name(flags@[i as int]->Name_0@)));
            },
            Flag::Mtime(n) => {
                r.criteria.push(Criterion::Mtime(*n));
                assert(r@ =~= before.push(CriterionView::Mtime(flags@[i as int]->Mtime_0 as int)));
            },
            Flag::Exec(c) => {
                r.criteria.push(Criterion::Exec { command: c.clone(), print_anyway });
                assert(r@ =~= before.push(
                    CriterionView::Exec { command: flags@[i as int]->Exec_0@, print_anyway },
                ));
            },
        }
        assert(before + placed(fs.skip(i as int), all_kinds, seen, print_anyway) =~= r@ + placed(
            fs.skip(i + 1),
            all_kinds,
            kinds is None,
            print_anyway,
        ));
        i = i + 1;
    }
    assert(fs.skip(flags.len() as int) =~= Seq::<FlagView>::empty());
    assert(r@ =~= r@ + placed(fs.skip(flags.len() as int), all_kinds, kinds is None, print_anyway));
    r
}

impl Predicate {
    /// Evaluates from criterion `from` on, up to the first criterion that
    /// fails, cannot be read, or asks a question.
    pub fn next_step(&self, entry: &Entry, now: i64, from: usize) -> (r: Step)
        requires
            from <= self@.len(),
        ensures
            r@ == step_from(self@, *entry, now as int, from as int),
    {
        let mut i = from;
        while i < self.criteria.len()
            invariant
                from <= i <= self.criteria.len(),
                self@.len() == self.criteria.len(),
                step_from(self@, *entry, now as int, from as int) == step_from(
                    self@,
                    *entry,
                    now as int,
                    i as int,
                ),
            decreases self.criteria.len() - i,
        {
            assert(self@[i as int] == self.criteria@[i as int]@);
            match &self.criteria[i] {
                Criterion::Type(kinds) => {
                    if !kind_listed(kinds, entry.kind) {
                        return Step::Decided(false);
                    }
                },
                Criterion::Mtime(n) => match entry.modified {
                    Some(m) => {
                        if !mtime_matches(m, now, *n) {
                            return Step::Decided(false);
                        }
                    },
                    None => {
                        return Step::Unreadable;
                    },
                },
                Criterion::Name(pattern) => {
                    return Step::MatchName(i, pattern.clone());
                },
                Criterion::Exec { command, .. } => {
                    return Step::RunCommand(i, substitute_path(command.as_str(), entry.text.as_str()));
                },
            }
            i = i + 1;
        }
        Step::Decided(true)
    }

    /// Continues after criterion `at` asked its question and got `answer`:
    /// the evaluation fails there unless the answer lets the criterion pass.
    pub fn resume(&self, entry: &Entry, now: i64, at: usize, answer: Answer) -> (r: Step)
        requires
            at < self@.len(),
        ensures
            r@ == if answer_passes(self@[at as int], answer) {
                step_from(self@, *entry, now as int, at + 1)
            } else {
                StepView::Decided(false)
            },
    {
        assert(self@[at as int] == self.criteria@[at as int]@);
        assert(self@.len() == self.criteria.len());
        let passes = match &self.criteria[at] {
            Criterion::Name(_) => answer == Answer::Matched(true),
            Criterion::Exec { print_anyway, .. } => match answer {
                Answer::Exited(success) => success || *print_anyway,
                _ => false,
            },
            _ => false,
        };
        if passes {
            self.next_step(entry, now, at + 1)
        } else {
            Step::Decided(false)
        }
    }
}


/// Whether criterion `c` passes on `e` at time `now`, where a glob match is
/// given by `named` (pattern to outcome) and a command's outcome by `ran`
/// (command line to answer); `None` where the modification time is needed
/// and unknown.
pub open spec fn criterion_holds(
    c: CriterionView,
    e: Entry,
    now: int,
    named: spec_fn(Seq<char>) -> bool,
    ran: spec_fn(Seq<char>) -> Answer,
) -> Option<bool> {
    match stage(c, e, now) {
        Stage::Pass => Some(true),
        Stage::Fail => Some(false),
        Stage::Unreadable => None,
        Stage::Ask => match c {
            CriterionView::Name(p) => Some(named(p)),
            CriterionView::Exec { command, .. } => Some(
                answer_passes(c, ran(substitute(command, e.text@))),
            ),
            _ => Some(false),
        },
    }
}

/// The composed predicate's result from criterion `i` on: the criteria are
/// taken from left to right, and the first that does not pass decides.
pub open spec fn verdict_from(
    cs: Seq<CriterionView>,
    e: Entry,
    now: int,
    named: spec_fn(Seq<char>) -> bool,
    ran: spec_fn(Seq<char>) -> Answer,
    i: int,
) -> Option<bool>
    decreases cs.len() - i,
{
    if i < 0 || i >= cs.len() {
        Some(true)
    } else {
        match criterion_holds(cs[i], e, now, named, ran) {
            Some(true) => verdict_from(cs, e, now, named, ran, i + 1),
            other => other,
        }
    }
}

/// The composed predicate's result on `e`.
pub open spec fn verdict(
    cs: Seq<CriterionView>,
    e: Entry,
    now: int,
    named: spec_fn(Seq<char>) -> bool,
    ran: spec_fn(Seq<char>) -> Answer,
) -> Option<bool> {
    verdict_from(cs, e, now, named, ran, 0)
}

/// Whether evaluation on `e` gets as far as criterion `k`: every criterion
/// before it passes.
pub open spec fn reaches(
    cs: Seq<CriterionView>,
    e: Entry,
    now: int,
    named: spec_fn(Seq<char>) -> bool,
    ran: spec_fn(Seq<char>) -> Answer,
    k: int,
) -> bool {
    forall|i: int| 0 <= i < k ==> criterion_holds(cs[i], e, now, named, ran) == Some(true)
}

/// With no criteria, every entry matches.
pub proof fn lemma_empty_predicate_matches(
    e: Entry,
    now: int,
    named: spec_fn(Seq<char>) -> bool,
    ran: spec_fn(Seq<char>) -> Answer,
)
    ensures
        step_from(Seq::empty(), e, now, 0) == StepView::Decided(true),
        verdict(Seq::empty(), e, now, named, ran) == Some(true),
{
}

/// Stepping through the criteria with [`Predicate::next_step`] and
/// [`Predicate::resume`], answering each question from `named` and `ran`,
/// computes the verdict; a question is only asked of a criterion that
/// evaluation reaches, once every decided criterion before it has passed.
pub proof fn lemma_steps_compute_verdict(
    cs: Seq<CriterionView>,
    e: Entry,
    now: int,
    named: spec_fn(Seq<char>) -> bool,
    ran: spec_fn(Seq<char>) -> Answer,
    i: int,
)
    requires
        0 <= i <= cs.len(),
    ensures
        verdict_from(cs, e, now, named, ran, i) == match step_from(cs, e, now, i) {
            StepView::Decided(b) => Some(b),
            StepView::Unreadable => None,
            StepView::MatchName(k, p) => if named(p) {
                verdict_from(cs, e, now, named, ran, k + 1)
            } else {
                Some(false)
            },
            StepView::RunCommand(k, cmd) => if answer_passes(cs[k], ran(cmd)) {
                verdict_from(cs, e, now, named, ran, k + 1)
            } else {
                Some(false)
            },
        },
        step_from(cs, e, now, i) matches StepView::MatchName(k, p) ==> i <= k < cs.len()
            && cs[k] == CriterionView::Name(p) && forall|j: int|
            i <= j < k ==> stage(cs[j], e, now) == Stage::Pass,
        step_from(cs, e, now, i) matches StepView::RunCommand(k, cmd) ==> i <= k < cs.len()
            && cs[k] is Exec && cmd == substitute(cs[k]->command, e.text@) && forall|j: int|
            i <= j < k ==> stage(cs[j], e, now) == Stage::Pass,
    decreases cs.len() - i,
{
    if i < cs.len() {
        lemma_steps_compute_verdict(cs, e, now, named, ran, i + 1);
    }
}

/// Absent criteria with side effects, the order of the criteria does not
/// change the result, wherever that result is a boolean (no criterion needs a
/// modification time that is unknown).
pub proof fn lemma_order_does_not_change_verdict(
    cs1: Seq<CriterionView>,
    cs2: Seq<CriterionView>,
    e: Entry,
    now: int,
    named: spec_fn(Seq<char>) -> bool,
    ran: spec_fn(Seq<char>) -> Answer,
)
    requires
        cs1.to_multiset() == cs2.to_multiset(),
        forall|i: int| 0 <= i < cs1.len() ==> !(#[trigger] cs1[i] is Exec),
        forall|i: int| 0 <= i < cs1.len() ==> stage(#[trigger] cs1[i], e, now) != Stage::Unreadable,
    ensures
        verdict(cs1, e, now, named, ran) == verdict(cs2, e, now, named, ran),
{
    broadcast use vstd::seq_lib::group_to_multiset_ensures;
    assert forall|i: int| 0 <= i < cs2.len() implies stage(cs2[i], e, now) != Stage::Unreadable by {
        assert(cs2.to_multiset().count(cs2[i]) > 0);
        assert(cs1.contains(cs2[i]));
    }
    lemma_verdict_is_conjunction(cs1, e, now, named, ran, 0);
    lemma_verdict_is_conjunction(cs2, e, now, named, ran, 0);
    let p = |c: CriterionView| criterion_holds(c, e, now, named, ran) == Some(true);
    assert((forall|j: int| 0 <= j < cs1.len() ==> p(cs1[j])) == (forall|j: int|
        0 <= j < cs2.len() ==> p(cs2[j]))) by {
        if forall|j: int| 0 <= j < cs1.len() ==> p(cs1[j]) {
            assert forall|j: int| 0 <= j < cs2.len() implies p(cs2[j]) by {
                assert(cs2.to_multiset().count(cs2[j]) > 0);
                assert(cs1.contains(cs2[j]));
            }
        }
        if forall|j: int| 0 <= j < cs2.len() ==> p(cs2[j]) {
            assert forall|j: int| 0 <= j < cs1.len() implies p(cs1[j]) by {
                assert(cs1.to_multiset().count(cs1[j]) > 0);
                assert(cs2.contains(cs1[j]));
            }
        }
    }
}

proof fn lemma_verdict_is_conjunction(
    cs: Seq<CriterionView>,
    e: Entry,
    now: int,
    named: spec_fn(Seq<char>) -> bool,
    ran: spec_fn(Seq<char>) -> Answer,
    i: int,
)
    requires
        0 <= i <= cs.len(),
        forall|j: int| 0 <= j < cs.len() ==> stage(#[trigger] cs[j], e, now) != Stage::Unreadable,
    ensures
        verdict_from(cs, e, now, named, ran, i) == Some(
            forall|j: int|
                i <= j < cs.len() ==> criterion_holds(#[trigger] cs[j], e, now, named, ran) == Some(
                    true,
                ),
        ),
    decreases cs.len() - i,
{
    if i < cs.len() {
        lemma_verdict_is_conjunction(cs, e, now, named, ran, i + 1);
        assert(criterion_holds(cs[i], e, now, named, ran) is Some);
    }
}

/// A command placed after a name criterion that does not match is never
/// reached, so it is never run.
pub proof fn lemma_failed_name_blocks_command(
    cs: Seq<CriterionView>,
    e: Entry,
    now: int,
    named: spec_fn(Seq<char>) -> bool,
    ran: spec_fn(Seq<char>) -> Answer,
    j: int,
    k: int,
)
    requires
        0 <= j < k < cs.len(),
        cs[j] matches CriterionView::Name(p) && !named(p),
        cs[k] is Exec,
    ensures
        !reaches(cs, e, now, named, ran, k),
{
    assert(criterion_holds(cs[j], e, now, named, ran) == Some(false));
}

} // verus!
