//! The quiz state aggregate: the loaded configuration, the status of the
//! state machine, and every user's answers and scores. All operations of
//! the sequential state owner live here.

use vstd::prelude::*;
use crate::error::Error;
use crate::question::{
    qt_like, spec_answer_text, spec_calculate_score, Answer, AnswerType, Question,
    QuestionSendType, QuestionType,
};
use crate::rank::{
    insert_pair, lemma_sort_desc_sorted, lemma_sort_desc_stable, same_total, sort_desc,
    sorted_desc,
};
use crate::status::{is_question_event, Event, QuizStatus, Ranking, Score};

verus! {

/// The loaded question bank: the quiz title and the questions in order.
pub struct Config {
    pub title: String,
    pub questions: Vec<Question>,
}

/// The titles of `qs`, as character sequences, in order.
pub open spec fn titles_v(qs: Seq<Question>) -> Seq<Seq<char>> {
    qs.map_values(|q: Question| q.title@)
}

/// The index of the first question of `qs` whose title is `title`.
pub open spec fn title_index(qs: Seq<Question>, title: Seq<char>) -> Option<int> {
    titles_v(qs).index_of_first(title)
}

/// The sum of the maximum scores of the first `n` questions.
pub open spec fn sum_max(qs: Seq<Question>, n: int) -> int
    decreases n,
{
    if n <= 0 {
        0
    } else {
        sum_max(qs, n - 1) + qs[n - 1].grade_range.max
    }
}

/// Partial sums of maximum scores never decrease.
pub proof fn lemma_sum_max_mono(qs: Seq<Question>, a: int, b: int)
    requires
        0 <= a <= b,
    ensures
        sum_max(qs, a) <= sum_max(qs, b),
    decreases b,
{
    if a < b {
        lemma_sum_max_mono(qs, a, b - 1);
    }
}

/// A well-formed configuration: every grading range is ordered, titles are
/// unique keys, and the maximum total score fits the machine.
pub open spec fn config_wf(c: Config) -> bool {
    &&& forall|i: int| 0 <= i < c.questions@.len() ==> (#[trigger] c.questions@[i]).grade_range.wf()
    &&& forall|i: int, j: int|
        0 <= i < j < c.questions@.len() ==> c.questions@[i].title@ != c.questions@[j].title@
    &&& sum_max(c.questions@, c.questions@.len() as int) <= usize::MAX
}

/// If `s[i]` is the first occurrence of `needle`, the first-index search
/// finds exactly `i`.
pub proof fn lemma_first_index_is<A>(s: Seq<A>, needle: A, i: int)
    requires
        0 <= i < s.len(),
        s[i] == needle,
        forall|j: int| 0 <= j < i ==> s[j] != needle,
    ensures
        s.index_of_first(needle) == Some(i),
{
    s.index_of_first_ensures(needle);
    match s.index_of_first(needle) {
        Some(k) => {
            if k < i {
                assert(s[k] == needle);
                assert(false);
            }
            if k > i {
                assert(s[i] != needle);
                assert(false);
            }
        },
        None => {
            assert(s.contains(needle)) by {
                assert(s[i] == needle);
            }
            assert(false);
        },
    }
}

/// If nothing in `s` equals `needle`, the first-index search finds nothing.
pub proof fn lemma_first_index_none<A>(s: Seq<A>, needle: A)
    requires
        forall|j: int| 0 <= j < s.len() ==> s[j] != needle,
    ensures
        s.index_of_first(needle) == None::<int>,
{
    s.index_of_first_ensures(needle);
    match s.index_of_first(needle) {
        Some(k) => {
            assert(s[k] == needle);
            assert(false);
        },
        None => {},
    }
}

impl Config {
    pub fn new(title: String, questions: Vec<Question>) -> (r: Config)
        ensures
            r == (Config { title, questions }),
    {
        Config { title, questions }
    }

    pub fn title(&self) -> (r: &String)
        ensures
            *r == self.title,
    {
        &self.title
    }

    pub fn question_count(&self) -> (r: usize)
        ensures
            r == self.questions@.len(),
    {
        self.questions.len()
    }

    pub fn questions(&self) -> (r: &Vec<Question>)
        ensures
            *r == self.questions,
    {
        &self.questions
    }

    /// The first question carrying `title`, with its index.
    pub fn question(&self, title: &String) -> (r: Option<(usize, &Question)>)
        ensures
            match r {
                Some((i, q)) => i < self.questions@.len() && title_index(self.questions@, title@)
                    == Some(i as int) && *q == self.questions@[i as int],
                None => title_index(self.questions@, title@) is None,
            },
    {
        let mut i: usize = 0;
        while i < self.questions.len()
            invariant
                i <= self.questions@.len(),
                forall|j: int| 0 <= j < i ==> (#[trigger] self.questions@[j]).title@ != title@,
            decreases self.questions@.len() - i,
        {
            if self.questions[i].title == *title {
                proof {
                    assert forall|j: int| 0 <= j < i implies titles_v(self.questions@)[j]
                        != title@ by {
                        assert(titles_v(self.questions@)[j] == self.questions@[j].title@);
                    }
                    assert(titles_v(self.questions@)[i as int] == self.questions@[i as int].title@);
                    lemma_first_index_is(titles_v(self.questions@), title@, i as int);
                }
                return Some((i, &self.questions[i]));
            }
            i += 1;
        }
        proof {
            assert forall|j: int| 0 <= j < titles_v(self.questions@).len() implies titles_v(
                self.questions@,
            )[j] != title@ by {
                assert(titles_v(self.questions@)[j] == self.questions@[j].title@);
            }
            lemma_first_index_none(titles_v(self.questions@), title@);
        }
        None
    }

    /// Whether this configuration is well formed, per `config_wf`.
    pub fn check_wf(&self) -> (r: bool)
        ensures
            r == config_wf(*self),
    {
        let n = self.questions.len();
        let mut i: usize = 0;
        while i < n
            invariant
                n == self.questions@.len(),
                i <= n,
                forall|k: int| 0 <= k < i ==> (#[trigger] self.questions@[k]).grade_range.wf(),
            decreases n - i,
        {
            let q = &self.questions[i];
            if q.grade_range.min > q.grade_range.max {
                proof {
                    assert(!(#[trigger] self.questions@[i as int]).grade_range.wf());
                }
                return false;
            }
            i += 1;
        }
        let mut a: usize = 0;
        while a < n
            invariant
                n == self.questions@.len(),
                a <= n,
                forall|k: int, l: int|
                    0 <= k < l < n && k < a ==> self.questions@[k].title@
                        != self.questions@[l].title@,
            decreases n - a,
        {
            let mut b: usize = a + 1;
            while b < n
                invariant
                    n == self.questions@.len(),
                    a < b <= n,
                    forall|k: int, l: int|
                        0 <= k < l < n && k < a ==> self.questions@[k].title@
                            != self.questions@[l].title@,
                    forall|l: int|
                        a < l < b ==> self.questions@[a as int].title@ != (
                        #[trigger] self.questions@[l]).title@,
                decreases n - b,
            {
                if self.questions[a].title == self.questions[b].title {
                    proof {
                        assert(self.questions@[a as int].title@ == self.questions@[
                            b as int
                        ].title@);
                        assert(!config_wf(*self));
                    }
                    return false;
                }
                b += 1;
            }
            a += 1;
        }
        let mut acc: usize = 0;
        let mut s: usize = 0;
        while s < n
            invariant
                n == self.questions@.len(),
                s <= n,
                acc == sum_max(self.questions@, s as int),
                forall|k: int| 0 <= k < n ==> (#[trigger] self.questions@[k]).grade_range.wf(),
                forall|k: int, l: int|
                    0 <= k < l < n ==> self.questions@[k].title@ != self.questions@[l].title@,
            decreases n - s,
        {
            match acc.checked_add(self.questions[s].grade_range.max) {
                Some(next) => {
                    acc = next;
                },
                None => {
                    proof {
                        lemma_sum_max_mono(self.questions@, s as int + 1, n as int);
                    }
                    return false;
                },
            }
            s += 1;
        }
        true
    }
}

/// One stored answer of one user: the question's title, the submitted
/// payload, and its current score.
pub struct AnswerEntry {
    pub question: String,
    pub answer: AnswerType,
    pub score: Score,
}

/// One registered user: the unique name, the answers submitted so far,
/// and the flat bonus adjustment to the user's total.
pub struct UserEntry {
    pub name: String,
    pub answers: Vec<AnswerEntry>,
    pub bonus: i64,
}

/// The question titles of `ans`, as character sequences, in order.
pub open spec fn answer_titles_v(ans: Seq<AnswerEntry>) -> Seq<Seq<char>> {
    ans.map_values(|a: AnswerEntry| a.question@)
}

/// The index of the first entry of `ans` answering `title`.
pub open spec fn answer_index(ans: Seq<AnswerEntry>, title: Seq<char>) -> Option<int> {
    answer_titles_v(ans).index_of_first(title)
}

/// The names of `users`, as character sequences, in order.
pub open spec fn user_names_v(users: Seq<UserEntry>) -> Seq<Seq<char>> {
    users.map_values(|u: UserEntry| u.name@)
}

/// The names of `users` in order.
pub open spec fn user_names(users: Seq<UserEntry>) -> Seq<String> {
    users.map_values(|u: UserEntry| u.name)
}

/// The index of the first user of `users` named `name`.
pub open spec fn user_index(users: Seq<UserEntry>, name: Seq<char>) -> Option<int> {
    user_names_v(users).index_of_first(name)
}

/// A well-formed answer entry: it answers an existing question, and a
/// grade never exceeds that question's maximum.
pub open spec fn entry_wf(e: AnswerEntry, qs: Seq<Question>) -> bool {
    match title_index(qs, e.question@) {
        Some(k) => match e.score {
            Score::Grade(g) => g <= qs[k].grade_range.max,
            Score::Ungraded => true,
        },
        None => false,
    }
}

/// A well-formed user record: one entry per answered question, each well
/// formed.
pub open spec fn user_wf(u: UserEntry, qs: Seq<Question>) -> bool {
    &&& forall|i: int, j: int|
        0 <= i < j < u.answers@.len() ==> u.answers@[i].question@ != u.answers@[j].question@
    &&& forall|i: int| 0 <= i < u.answers@.len() ==> entry_wf(#[trigger] u.answers@[i], qs)
}

/// The names of the users of `users` (in login order) who have no stored
/// answer for the question titled `title`.
pub open spec fn no_answer_names(users: Seq<UserEntry>, title: Seq<char>) -> Seq<String>
    decreases users.len(),
{
    if users.len() == 0 {
        Seq::<String>::empty()
    } else {
        let prefix = no_answer_names(users.drop_last(), title);
        if answer_index(users.last().answers@, title) is None {
            prefix.push(users.last().name)
        } else {
            prefix
        }
    }
}

/// Whether some user's stored answer for the question titled `title` is
/// still ungraded.
pub open spec fn has_ungraded(users: Seq<UserEntry>, title: Seq<char>) -> bool {
    exists|u: int|
        0 <= u < users.len() && ((#[trigger] answer_index(users[u].answers@, title)) matches Some(a)
            && users[u].answers@[a].score is Ungraded)
}

/// The indices, in increasing order, of the first `n` questions of `qs`
/// for which some user's answer is still ungraded.
pub open spec fn ungraded_indices(users: Seq<UserEntry>, qs: Seq<Question>, n: int) -> Seq<usize>
    decreases n,
{
    if n <= 0 {
        Seq::<usize>::empty()
    } else {
        let prefix = ungraded_indices(users, qs, n - 1);
        if has_ungraded(users, qs[n - 1].title@) {
            prefix.push((n - 1) as usize)
        } else {
            prefix
        }
    }
}

/// What question `i` of `qs` contributes to `u`'s total: the grade of
/// `u`'s answer to it, or nothing while ungraded or unanswered.
pub open spec fn grade_at(u: UserEntry, qs: Seq<Question>, i: int) -> int {
    match answer_index(u.answers@, qs[i].title@) {
        Some(a) => match u.answers@[a].score {
            Score::Grade(g) => g as int,
            Score::Ungraded => 0,
        },
        None => 0,
    }
}

/// The sum of `u`'s grades over the first `n` questions of `qs`.
pub open spec fn grade_sum(u: UserEntry, qs: Seq<Question>, n: int) -> int
    decreases n,
{
    if n <= 0 {
        0
    } else {
        grade_sum(u, qs, n - 1) + grade_at(u, qs, n - 1)
    }
}

/// `u`'s ranking total: all grades plus the flat bonus.
pub open spec fn user_total(u: UserEntry, qs: Seq<Question>) -> int {
    grade_sum(u, qs, qs.len() as int) + u.bonus
}

/// Every user's name and total, in login order.
pub open spec fn ranking_pairs(users: Seq<UserEntry>, qs: Seq<Question>) -> Seq<(String, i128)> {
    users.map_values(|u: UserEntry| (u.name, user_total(u, qs) as i128))
}

/// With unique titles, a well-formed user's grade on each question never
/// exceeds that question's maximum, so the partial grade sums stay under
/// the partial maximum sums.
pub proof fn lemma_grade_sum_le(u: UserEntry, qs: Seq<Question>, n: int)
    requires
        user_wf(u, qs),
        forall|i: int, j: int| 0 <= i < j < qs.len() ==> qs[i].title@ != qs[j].title@,
        0 <= n <= qs.len(),
    ensures
        grade_sum(u, qs, n) <= sum_max(qs, n),
        grade_sum(u, qs, n) >= 0,
    decreases n,
{
    if n > 0 {
        lemma_grade_sum_le(u, qs, n - 1);
        assert(grade_at(u, qs, n - 1) <= qs[n - 1].grade_range.max && grade_at(u, qs, n - 1)
            >= 0) by {
            let title = qs[n - 1].title@;
            answer_titles_v(u.answers@).index_of_first_ensures(title);
            match answer_index(u.answers@, title) {
                Some(a) => {
                    assert(answer_titles_v(u.answers@)[a] == u.answers@[a].question@);
                    let e = u.answers@[a];
                    assert(entry_wf(e, qs));
                    titles_v(qs).index_of_first_ensures(e.question@);
                    match title_index(qs, e.question@) {
                        Some(k) => {
                            assert(titles_v(qs)[k] == qs[k].title@);
                            assert(titles_v(qs)[n - 1] == qs[n - 1].title@);
                            assert(qs[k].title@ == qs[n - 1].title@);
                            if k != n - 1 {
                                assert(false);
                            }
                        },
                        None => {
                            assert(false);
                        },
                    }
                },
                None => {},
            }
        }
    }
}

/// The index of the first entry of `answers` answering `title`, found by
/// a linear scan.
fn find_answer(answers: &Vec<AnswerEntry>, title: &String) -> (r: Option<usize>)
    ensures
        match r {
            Some(i) => i < answers@.len() && answer_index(answers@, title@) == Some(i as int),
            None => answer_index(answers@, title@) is None,
        },
{
    let mut i: usize = 0;
    while i < answers.len()
        invariant
            i <= answers@.len(),
            forall|j: int| 0 <= j < i ==> (#[trigger] answers@[j]).question@ != title@,
        decreases answers@.len() - i,
    {
        if answers[i].question == *title {
            proof {
                assert forall|j: int| 0 <= j < i implies answer_titles_v(answers@)[j] != title@ by {
                    assert(answer_titles_v(answers@)[j] == answers@[j].question@);
                }
                assert(answer_titles_v(answers@)[i as int] == answers@[i as int].question@);
                lemma_first_index_is(answer_titles_v(answers@), title@, i as int);
            }
            return Some(i);
        }
        i += 1;
    }
    proof {
        assert forall|j: int| 0 <= j < answer_titles_v(answers@).len() implies answer_titles_v(
            answers@,
        )[j] != title@ by {
            assert(answer_titles_v(answers@)[j] == answers@[j].question@);
        }
        lemma_first_index_none(answer_titles_v(answers@), title@);
    }
    None
}

/// The index of the first user of `users` named `name`, found by a linear
/// scan.
fn find_user_in(users: &Vec<UserEntry>, name: &String) -> (r: Option<usize>)
    ensures
        match r {
            Some(i) => i < users@.len() && user_index(users@, name@) == Some(i as int),
            None => user_index(users@, name@) is None,
        },
{
    let mut i: usize = 0;
    while i < users.len()
        invariant
            i <= users@.len(),
            forall|j: int| 0 <= j < i ==> (#[trigger] users@[j]).name@ != name@,
        decreases users@.len() - i,
    {
        if users[i].name == *name {
            proof {
                assert forall|j: int| 0 <= j < i implies user_names_v(users@)[j] != name@ by {
                    assert(user_names_v(users@)[j] == users@[j].name@);
                }
                assert(user_names_v(users@)[i as int] == users@[i as int].name@);
                lemma_first_index_is(user_names_v(users@), name@, i as int);
            }
            return Some(i);
        }
        i += 1;
    }
    proof {
        assert forall|j: int| 0 <= j < user_names_v(users@).len() implies user_names_v(users@)[j]
            != name@ by {
            assert(user_names_v(users@)[j] == users@[j].name@);
        }
        lemma_first_index_none(user_names_v(users@), name@);
    }
    None
}

/// Whether both rosters hold exactly the same names, in whatever order.
pub open spec fn same_user_set(a: Seq<UserEntry>, b: Seq<UserEntry>) -> bool {
    &&& forall|i: int| 0 <= i < a.len() ==> user_index(b, (#[trigger] a[i]).name@) is Some
    &&& forall|j: int| 0 <= j < b.len() ==> user_index(a, (#[trigger] b[j]).name@) is Some
}

/// Whether the rosters `a` and `b` hold the same set of names.
fn users_match(a: &Vec<UserEntry>, b: &Vec<UserEntry>) -> (r: bool)
    ensures
        r == same_user_set(a@, b@),
{
    let mut i: usize = 0;
    while i < a.len()
        invariant
            i <= a@.len(),
            forall|k: int| 0 <= k < i ==> user_index(b@, (#[trigger] a@[k]).name@) is Some,
        decreases a@.len() - i,
    {
        if find_user_in(b, &a[i].name).is_none() {
            return false;
        }
        i += 1;
    }
    let mut j: usize = 0;
    while j < b.len()
        invariant
            j <= b@.len(),
            forall|k: int| 0 <= k < a@.len() ==> user_index(b@, (#[trigger] a@[k]).name@) is Some,
            forall|k: int| 0 <= k < j ==> user_index(a@, (#[trigger] b@[k]).name@) is Some,
        decreases b@.len() - j,
    {
        if find_user_in(a, &b[j].name).is_none() {
            return false;
        }
        j += 1;
    }
    true
}

/// Whether any user's stored answer for the question titled `title` is
/// still ungraded.
fn any_ungraded(users: &Vec<UserEntry>, title: &String) -> (b: bool)
    ensures
        b == has_ungraded(users@, title@),
{
    let mut u: usize = 0;
    while u < users.len()
        invariant
            u <= users@.len(),
            forall|k: int|
                0 <= k < u ==> !((#[trigger] answer_index(users@[k].answers@, title@)) matches Some(
                    a,
                ) && users@[k].answers@[a].score is Ungraded),
        decreases users@.len() - u,
    {
        match find_answer(&users[u].answers, title) {
            Some(a) => {
                if users[u].answers[a].score.is_ungraded() {
                    proof {
                        assert(has_ungraded(users@, title@)) by {
                            assert(answer_index(users@[u as int].answers@, title@) matches Some(x)
                                && users@[u as int].answers@[x].score is Ungraded);
                        }
                    }
                    return true;
                }
            },
            None => {},
        }
        u += 1;
    }
    false
}

/// The rejection reported when the live question is locked.
pub open spec fn msg_locked() -> Seq<char> {
    "Could not submit answer: question is locked."@
}

/// The rejection reported when the answered question is not the live one.
pub open spec fn msg_no_question() -> Seq<char> {
    "Could not submit answer: no question open."@
}

/// The rejection reported when the user or the question is unknown.
pub open spec fn msg_server_error() -> Seq<char> {
    "Could not submit answer: server error."@
}

/// The complete state of one quiz session.
pub struct QuizState {
    pub config: Config,
    pub root: String,
    pub status: QuizStatus,
    pub users: Vec<UserEntry>,
}

impl QuizState {
    /// The state invariant: the configuration is well formed, a live
    /// question index is in range, user names are unique, and every user
    /// record is well formed.
    pub open spec fn wf(self) -> bool {
        &&& config_wf(self.config)
        &&& match self.status {
            QuizStatus::Question { id, .. } => (id as int) < self.config.questions@.len(),
            _ => true,
        }
        &&& forall|i: int, j: int|
            0 <= i < j < self.users@.len() ==> self.users@[i].name@ != self.users@[j].name@
        &&& forall|i: int|
            0 <= i < self.users@.len() ==> user_wf(#[trigger] self.users@[i], self.config.questions@)
    }

    /// A fresh state in the lobby with no users. Rejects a configuration
    /// that is not well formed.
    pub fn new(root: String, config: Config) -> (r: Result<QuizState, Error>)
        ensures
            match r {
                Ok(s) => config_wf(config) && s.config == config && s.root == root && s.status
                    == QuizStatus::Lobby && s.users@ == Seq::<UserEntry>::empty() && s.wf(),
                Err(_) => !config_wf(config),
            },
    {
        if !config.check_wf() {
            return Err(Error::Other);
        }
        Ok(QuizState { config, root, status: QuizStatus::Lobby, users: Vec::new() })
    }

    pub fn root(&self) -> (r: &String)
        ensures
            *r == self.root,
    {
        &self.root
    }

    /// Whether this state satisfies the invariant, per `wf`.
    pub fn check_wf(&self) -> (r: bool)
        ensures
            r == self.wf(),
    {
        if !self.config.check_wf() {
            return false;
        }
        match self.status {
            QuizStatus::Question { id, .. } => {
                if id >= self.config.questions.len() {
                    return false;
                }
            },
            _ => {},
        }
        let nu = self.users.len();
        let mut a: usize = 0;
        while a < nu
            invariant
                nu == self.users@.len(),
                a <= nu,
                forall|k: int, l: int|
                    0 <= k < l < nu && k < a ==> self.users@[k].name@ != self.users@[l].name@,
            decreases nu - a,
        {
            let mut b: usize = a + 1;
            while b < nu
                invariant
                    nu == self.users@.len(),
                    a < b <= nu,
                    forall|k: int, l: int|
                        0 <= k < l < nu && k < a ==> self.users@[k].name@ != self.users@[l].name@,
                    forall|l: int|
                        a < l < b ==> self.users@[a as int].name@ != (
                        #[trigger] self.users@[l]).name@,
                decreases nu - b,
            {
                if self.users[a].name == self.users[b].name {
                    proof {
                        assert(self.users@[a as int].name@ == self.users@[b as int].name@);
                        assert(!self.wf());
                    }
                    return false;
                }
                b += 1;
            }
            a += 1;
        }
        let mut u: usize = 0;
        while u < nu
            invariant
                nu == self.users@.len(),
                u <= nu,
                forall|k: int|
                    0 <= k < u ==> user_wf(#[trigger] self.users@[k], self.config.questions@),
            decreases nu - u,
        {
            let answers = &self.users[u].answers;
            let na = answers.len();
            let mut x: usize = 0;
            while x < na
                invariant
                    na == answers@.len(),
                    answers == &self.users@[u as int].answers,
                    u < nu == self.users@.len(),
                    x <= na,
                    forall|k: int, l: int|
                        0 <= k < l < na && k < x ==> answers@[k].question@ != answers@[l].question@,
                decreases na - x,
            {
                let mut y: usize = x + 1;
                while y < na
                    invariant
                        na == answers@.len(),
                        answers == &self.users@[u as int].answers,
                        u < nu == self.users@.len(),
                        x < y <= na,
                        forall|k: int, l: int|
                            0 <= k < l < na && k < x ==> answers@[k].question@
                                != answers@[l].question@,
                        forall|l: int|
                            x < l < y ==> answers@[x as int].question@ != (
                            #[trigger] answers@[l]).question@,
                    decreases na - y,
                {
                    if answers[x].question == answers[y].question {
                        proof {
                            assert(answers@[x as int].question@ == answers@[y as int].question@);
                            assert(!user_wf(self.users@[u as int], self.config.questions@));
                            assert(!self.wf());
                        }
                        return false;
                    }
                    y += 1;
                }
                x += 1;
            }
            let mut e: usize = 0;
            while e < na
                invariant
                    na == answers@.len(),
                    answers == &self.users@[u as int].answers,
                    u < nu == self.users@.len(),
                    e <= na,
                    forall|k: int|
                        0 <= k < e ==> entry_wf(#[trigger] answers@[k], self.config.questions@),
                decreases na - e,
            {
                match self.config.question(&answers[e].question) {
                    None => {
                        proof {
                            assert(!entry_wf(answers@[e as int], self.config.questions@));
                            assert(!user_wf(self.users@[u as int], self.config.questions@));
                            assert(!self.wf());
                        }
                        return false;
                    },
                    Some((_, q)) => {
                        match &answers[e].score {
                            Score::Grade(g) => {
                                if *g > q.grade_range.max {
                                    proof {
                                        assert(!entry_wf(
                                            answers@[e as int],
                                            self.config.questions@,
                                        ));
                                        assert(!user_wf(
                                            self.users@[u as int],
                                            self.config.questions@,
                                        ));
                                        assert(!self.wf());
                                    }
                                    return false;
                                }
                            },
                            Score::Ungraded => {},
                        }
                    },
                }
                e += 1;
            }
            proof {
                assert(user_wf(self.users@[u as int], self.config.questions@));
            }
            u += 1;
        }
        true
    }

    /// Replace the configuration, status and stored answers by those of
    /// `candidate`, keeping this state's root path, and hand back the
    /// event announcing the restored position. Rejects a candidate that
    /// is not a well-formed quiz state, and one whose user set differs
    /// from the live roster; either rejection leaves this state exactly
    /// as it was.
    pub fn import_state(&mut self, candidate: QuizState) -> (r: Result<Option<Event>, Error>)
        ensures
            r is Ok ==> final(self).wf(),
            r is Err ==> *final(self) == *old(self),
            r is Err <==> (!candidate.wf() || !same_user_set(old(self).users@, candidate.users@)),
            r is Ok ==> {
                &&& final(self).config == candidate.config
                &&& final(self).status == candidate.status
                &&& final(self).users == candidate.users
                &&& final(self).root == old(self).root
                &&& match candidate.status {
                    QuizStatus::Lobby => (r matches Ok(Some(ev)) && (ev matches Event::Lobby {
                        users,
                    } && users@ == user_names(candidate.users@))),
                    QuizStatus::Question { id, .. } => (r matches Ok(Some(ev))
                        && is_question_event(
                        ev,
                        candidate.config.questions@[id as int],
                        id as int,
                        candidate.config.questions@.len() as int,
                    )),
                    QuizStatus::Done => r == Ok::<Option<Event>, Error>(Some(Event::Finished)),
                }
            },
    {
        if !candidate.check_wf() {
            return Err(
                Error::Message(String::from_str("Snapshot contents are not a valid quiz state")),
            );
        }
        if !users_match(&self.users, &candidate.users) {
            return Err(
                Error::Message(String::from_str("Current users and imported users do not match")),
            );
        }
        let QuizState { config, root: _, status, users } = candidate;
        self.config = config;
        self.status = status;
        self.users = users;
        let ev = match self.status {
            QuizStatus::Lobby => self.lobby(),
            QuizStatus::Question { id, .. } => self.question_event(id),
            QuizStatus::Done => Some(Event::Finished),
        };
        Ok(ev)
    }

    pub fn title(&self) -> (r: &String)
        ensures
            *r == self.config.title,
    {
        &self.config.title
    }

    pub fn status(&self) -> (r: &QuizStatus)
        ensures
            *r == self.status,
    {
        &self.status
    }

    pub fn user_count(&self) -> (r: usize)
        ensures
            r == self.users@.len(),
    {
        self.users.len()
    }

    /// All user names, in login order.
    pub fn users(&self) -> (r: Vec<String>)
        ensures
            r@ == user_names(self.users@),
    {
        let mut out: Vec<String> = Vec::new();
        let mut i: usize = 0;
        while i < self.users.len()
            invariant
                i <= self.users@.len(),
                out@.len() == i,
                forall|j: int| 0 <= j < i ==> out@[j] == self.users@[j].name,
            decreases self.users@.len() - i,
        {
            out.push(self.users[i].name.clone());
            i += 1;
        }
        proof {
            assert(out@ =~= user_names(self.users@));
        }
        out
    }

    /// The index of the user named `name`, if registered.
    fn find_user(&self, name: &String) -> (r: Option<usize>)
        ensures
            match r {
                Some(i) => i < self.users@.len() && user_index(self.users@, name@) == Some(
                    i as int,
                ),
                None => user_index(self.users@, name@) is None,
            },
    {
        find_user_in(&self.users, name)
    }

    pub fn user_exists(&self, username: &String) -> (r: bool)
        ensures
            r == (user_index(self.users@, username@) is Some),
    {
        self.find_user(username).is_some()
    }

    /// Register a new user. Fails on an empty name and on a name already
    /// taken; on success appends a user with no answers and no bonus.
    pub fn add_user(&mut self, username: String) -> (r: Result<(), Error>)
        ensures
            r is Err <==> (username@.len() == 0 || user_index(old(self).users@, username@) is Some),
            r is Err ==> *final(self) == *old(self),
            r is Ok ==> {
                &&& final(self).users@.len() == old(self).users@.len() + 1
                &&& final(self).users@ == old(self).users@.push(
                    final(self).users@.last(),
                )
                &&& final(self).users@.last().name == username
                &&& final(self).users@.last().answers@ == Seq::<AnswerEntry>::empty()
                &&& final(self).users@.last().bonus == 0i64
                &&& final(self).config == old(self).config
                &&& final(self).status == old(self).status
                &&& final(self).root == old(self).root
            },
            old(self).wf() ==> final(self).wf(),
    {
        if username.as_str().is_empty() {
            return Err(Error::Other);
        }
        if self.find_user(&username).is_some() {
            return Err(Error::Other);
        }
        proof {
            user_names_v(self.users@).index_of_first_ensures(username@);
        }
        let ghost old_users = self.users@;
        self.users.push(UserEntry { name: username, answers: Vec::new(), bonus: 0 });
        proof {
            if old(self).wf() {
                assert forall|i: int, j: int|
                    0 <= i < j < self.users@.len() implies self.users@[i].name@
                    != self.users@[j].name@ by {
                    if j == self.users@.len() - 1 {
                        assert(user_names_v(old_users)[i] == old_users[i].name@);
                    } else {
                        assert(self.users@[i] == old_users[i]);
                        assert(self.users@[j] == old_users[j]);
                    }
                }
                assert forall|i: int|
                    0 <= i < self.users@.len() implies user_wf(
                    #[trigger] self.users@[i],
                    self.config.questions@,
                ) by {
                    if i < self.users@.len() - 1 {
                        assert(self.users@[i] == old_users[i]);
                    } else {
                        assert(self.users@[i].answers@.len() == 0);
                    }
                }
            }
        }
        Ok(())
    }

    /// Remove a registered user and all their answers. Fails when no user
    /// carries that name.
    pub fn remove_user(&mut self, username: &String) -> (r: Result<(), Error>)
        ensures
            r is Err <==> user_index(old(self).users@, username@) is None,
            r is Err ==> *final(self) == *old(self),
            r is Ok ==> (user_index(old(self).users@, username@) matches Some(i) && {
                &&& final(self).users@ == old(self).users@.remove(i)
                &&& final(self).config == old(self).config
                &&& final(self).status == old(self).status
                &&& final(self).root == old(self).root
            }),
            old(self).wf() ==> final(self).wf(),
    {
        match self.find_user(username) {
            None => Err(Error::Other),
            Some(i) => {
                proof {
                    user_names_v(self.users@).index_of_first_ensures(username@);
                }
                let ghost old_users = self.users@;
                self.users.remove(i);
                proof {
                    if old(self).wf() {
                        assert forall|a: int, b: int|
                            0 <= a < b < self.users@.len() implies self.users@[a].name@
                            != self.users@[b].name@ by {
                            let oa = if a < i { a } else { a + 1 };
                            let ob = if b < i { b } else { b + 1 };
                            assert(self.users@[a] == old_users[oa]);
                            assert(self.users@[b] == old_users[ob]);
                        }
                        assert forall|a: int|
                            0 <= a < self.users@.len() implies user_wf(
                            #[trigger] self.users@[a],
                            self.config.questions@,
                        ) by {
                            let oa = if a < i { a } else { a + 1 };
                            assert(self.users@[a] == old_users[oa]);
                        }
                    }
                }
                Ok(())
            },
        }
    }

    /// Every question's title paired with its type, in order.
    pub fn questions(&self) -> (r: Vec<(String, QuestionType)>)
        ensures
            r@.len() == self.config.questions@.len(),
            forall|i: int|
                0 <= i < r@.len() ==> (#[trigger] r@[i]).0 == self.config.questions@[i].title
                    && qt_like(r@[i].1, self.config.questions@[i].type_spec),
    {
        let mut out: Vec<(String, QuestionType)> = Vec::new();
        let mut i: usize = 0;
        while i < self.config.questions.len()
            invariant
                i <= self.config.questions@.len(),
                out@.len() == i,
                forall|j: int|
                    0 <= j < i ==> (#[trigger] out@[j]).0 == self.config.questions@[j].title
                        && qt_like(out@[j].1, self.config.questions@[j].type_spec),
            decreases self.config.questions@.len() - i,
        {
            let q = &self.config.questions[i];
            out.push((q.title.clone(), q.type_spec.duplicate()));
            i += 1;
        }
        out
    }

    /// The names of the users who have not answered the live question;
    /// empty when no question is live.
    pub fn no_answer_users(&self) -> (r: Vec<String>)
        ensures
            ({
                match self.status {
                    QuizStatus::Question { id, .. } => if (id as int)
                        < self.config.questions@.len() {
                        r@ == no_answer_names(
                            self.users@,
                            self.config.questions@[id as int].title@,
                        )
                    } else {
                        r@ == Seq::<String>::empty()
                    },
                    _ => r@ == Seq::<String>::empty(),
                }
            }),
    {
        let id = match self.status {
            QuizStatus::Question { id, .. } => id,
            _ => {
                return Vec::new();
            },
        };
        if id >= self.config.questions.len() {
            return Vec::new();
        }
        let title = &self.config.questions[id].title;
        let mut out: Vec<String> = Vec::new();
        let mut j: usize = 0;
        while j < self.users.len()
            invariant
                j <= self.users@.len(),
                title == &self.config.questions@[id as int].title,
                out@ == no_answer_names(self.users@.take(j as int), title@),
            decreases self.users@.len() - j,
        {
            let u = &self.users[j];
            if find_answer(&u.answers, title).is_none() {
                out.push(u.name.clone());
            }
            proof {
                let taken = self.users@.take(j as int + 1);
                assert(taken.drop_last() =~= self.users@.take(j as int));
                assert(taken.last() == self.users@[j as int]);
            }
            j += 1;
        }
        proof {
            assert(self.users@.take(self.users@.len() as int) =~= self.users@);
        }
        out
    }

    /// The indices of the questions seen so far (all of them once the
    /// quiz is done) on which at least one answer is still ungraded.
    pub fn ungraded_answers(&self) -> (r: Vec<usize>)
        ensures
            ({
                let n = self.config.questions@.len() as int;
                match self.status {
                    QuizStatus::Lobby => r@ == Seq::<usize>::empty(),
                    QuizStatus::Question { id, .. } => if (id as int) < n {
                        r@ == ungraded_indices(self.users@, self.config.questions@, id as int + 1)
                    } else {
                        r@ == Seq::<usize>::empty()
                    },
                    QuizStatus::Done => r@ == ungraded_indices(
                        self.users@,
                        self.config.questions@,
                        n,
                    ),
                }
            }),
    {
        let n = self.config.questions.len();
        let m = match self.status {
            QuizStatus::Lobby => {
                return Vec::new();
            },
            QuizStatus::Question { id, .. } => {
                if id >= n {
                    return Vec::new();
                }
                id + 1
            },
            QuizStatus::Done => n,
        };
        let mut out: Vec<usize> = Vec::new();
        let mut i: usize = 0;
        while i < m
            invariant
                m <= n,
                n == self.config.questions@.len(),
                i <= m,
                out@ == ungraded_indices(self.users@, self.config.questions@, i as int),
            decreases m - i,
        {
            if any_ungraded(&self.users, &self.config.questions[i].title) {
                out.push(i);
            }
            i += 1;
        }
        out
    }

    /// For each user (in login order), the display text and score of the
    /// answer to question `index` — empty text and no grade where a user
    /// never answered — together with the question's grading range.
    pub fn answers(&self, index: usize) -> (r: Option<
        (Vec<(String, (String, Score))>, (usize, usize)),
    >)
        ensures
            index >= self.config.questions@.len() ==> r is None,
            index < self.config.questions@.len() ==> (r matches Some((rows, range)) && {
                let q = self.config.questions@[index as int];
                &&& range == (q.grade_range.min, q.grade_range.max)
                &&& rows@.len() == self.users@.len()
                &&& forall|j: int|
                    0 <= j < self.users@.len() ==> (#[trigger] rows@[j]).0 == self.users@[j].name
                        && (match answer_index(self.users@[j].answers@, q.title@) {
                        Some(a) => rows@[j].1.0@ == spec_answer_text(
                            q,
                            self.users@[j].answers@[a].answer,
                        ) && rows@[j].1.1 == self.users@[j].answers@[a].score,
                        None => rows@[j].1.0@ == Seq::<char>::empty() && rows@[j].1.1
                            == Score::Ungraded,
                    })
            }),
    {
        if index >= self.config.questions.len() {
            return None;
        }
        let q = &self.config.questions[index];
        let mut rows: Vec<(String, (String, Score))> = Vec::new();
        let mut j: usize = 0;
        while j < self.users.len()
            invariant
                j <= self.users@.len(),
                index < self.config.questions@.len(),
                q == &self.config.questions@[index as int],
                rows@.len() == j,
                forall|l: int|
                    0 <= l < j ==> (#[trigger] rows@[l]).0 == self.users@[l].name && (
                    match answer_index(self.users@[l].answers@, q.title@) {
                        Some(a) => rows@[l].1.0@ == spec_answer_text(
                            *q,
                            self.users@[l].answers@[a].answer,
                        ) && rows@[l].1.1 == self.users@[l].answers@[a].score,
                        None => rows@[l].1.0@ == Seq::<char>::empty() && rows@[l].1.1
                            == Score::Ungraded,
                    }),
            decreases self.users@.len() - j,
        {
            let u = &self.users[j];
            let row = match find_answer(&u.answers, &q.title) {
                Some(a) => (u.name.clone(), (q.get_answer_string(&u.answers[a].answer), u.answers[a].score)),
                None => (u.name.clone(), (String::new(), Score::Ungraded)),
            };
            rows.push(row);
            j += 1;
        }
        Some((rows, (q.grade_range.min, q.grade_range.max)))
    }

    /// Every user's total (grades plus bonus) paired with the name, in
    /// descending order of total, ties keeping login order, together with
    /// the highest total the question bank allows.
    pub fn ranking(&self) -> (r: Ranking)
        requires
            self.wf(),
        ensures
            r.max_score as int == sum_max(
                self.config.questions@,
                self.config.questions@.len() as int,
            ),
            r.scores@ == sort_desc(ranking_pairs(self.users@, self.config.questions@)),
    {
        let ghost qs = self.config.questions@;
        let ghost rp = ranking_pairs(self.users@, qs);
        let n = self.config.questions.len();
        let mut max_score: usize = 0;
        let mut i: usize = 0;
        while i < n
            invariant
                self.wf(),
                qs == self.config.questions@,
                n == qs.len(),
                i <= n,
                max_score as int == sum_max(qs, i as int),
            decreases n - i,
        {
            proof {
                lemma_sum_max_mono(qs, i as int + 1, n as int);
            }
            max_score = max_score + self.config.questions[i].grade_range.max;
            i += 1;
        }
        let mut scores: Vec<(String, i128)> = Vec::new();
        let mut j: usize = 0;
        while j < self.users.len()
            invariant
                self.wf(),
                qs == self.config.questions@,
                rp == ranking_pairs(self.users@, qs),
                n == qs.len(),
                j <= self.users@.len(),
                scores@ == sort_desc(rp.take(j as int)),
            decreases self.users@.len() - j,
        {
            let u = &self.users[j];
            let mut total: usize = 0;
            let mut k: usize = 0;
            while k < n
                invariant
                    self.wf(),
                    qs == self.config.questions@,
                    n == qs.len(),
                    k <= n,
                    j < self.users@.len(),
                    *u == self.users@[j as int],
                    total as int == grade_sum(self.users@[j as int], qs, k as int),
                decreases n - k,
            {
                proof {
                    assert(user_wf(self.users@[j as int], qs));
                    lemma_grade_sum_le(self.users@[j as int], qs, k as int + 1);
                    lemma_sum_max_mono(qs, k as int + 1, n as int);
                }
                let g = match find_answer(&u.answers, &self.config.questions[k].title) {
                    Some(a) => match u.answers[a].score {
                        Score::Grade(g) => g,
                        Score::Ungraded => 0,
                    },
                    None => 0,
                };
                total = total + g;
                k += 1;
            }
            let total_i: i128 = total as i128 + (u.bonus as i128);
            let pair = (u.name.clone(), total_i);
            proof {
                assert(pair == rp[j as int]);
            }
            insert_pair(&mut scores, pair);
            proof {
                assert(rp.take(j as int + 1).drop_last() =~= rp.take(j as int));
                assert(rp.take(j as int + 1).last() == rp[j as int]);
            }
            j += 1;
        }
        proof {
            assert(rp.take(self.users@.len() as int) =~= rp);
        }
        Ranking { max_score, scores }
    }

    /// The event announcing question `index`: the finish event when
    /// `index` is just past the last question, nothing when it is further
    /// out of range.
    pub fn question_event(&self, index: usize) -> (r: Option<Event>)
        ensures
            index > self.config.questions@.len() ==> r is None,
            index == self.config.questions@.len() ==> r == Some(Event::Finished),
            index < self.config.questions@.len() ==> (r matches Some(ev) && is_question_event(
                ev,
                self.config.questions@[index as int],
                index as int,
                self.config.questions@.len() as int,
            )),
    {
        let total = self.config.questions.len();
        if index == total {
            Some(Event::Finished)
        } else if index < total {
            let q = &self.config.questions[index];
            let image = match &q.image {
                Some(s) => Some(s.clone()),
                None => None,
            };
            Some(
                Event::Question {
                    title: q.title.clone(),
                    id: index,
                    total,
                    image,
                    question_type: QuestionSendType::from_type(&q.type_spec),
                },
            )
        } else {
            None
        }
    }

    /// The question at `index`, if any.
    pub fn question(&self, index: usize) -> (r: Option<&Question>)
        ensures
            match r {
                Some(q) => index < self.config.questions@.len() && *q == self.config.questions@[
                    index as int
                ],
                None => index >= self.config.questions@.len(),
            },
    {
        if index < self.config.questions.len() {
            Some(&self.config.questions[index])
        } else {
            None
        }
    }

    /// The display text of `answer` on the question it names, empty when
    /// no question carries that title.
    pub fn answer_string(&self, answer: &Answer) -> (r: String)
        ensures
            match title_index(self.config.questions@, answer.question@) {
                Some(k) => r@ == spec_answer_text(self.config.questions@[k], answer.answer),
                None => r@ == Seq::<char>::empty(),
            },
    {
        match self.config.question(&answer.question) {
            Some((_, q)) => q.get_answer_string(&answer.answer),
            None => String::new(),
        }
    }

    /// Start the quiz: only from the lobby, with at least one user and at
    /// least one question; moves to the first question, unlocked.
    pub fn start(&mut self) -> (r: Option<Event>)
        ensures
            !(old(self).status is Lobby && old(self).users@.len() > 0
                && old(self).config.questions@.len() > 0) ==> r is None && *final(self) == *old(
                self,
            ),
            (old(self).status is Lobby && old(self).users@.len() > 0
                && old(self).config.questions@.len() > 0) ==> {
                &&& final(self).status == (QuizStatus::Question { id: 0usize, locked: false })
                &&& final(self).config == old(self).config
                &&& final(self).users == old(self).users
                &&& final(self).root == old(self).root
                &&& (r matches Some(ev) && is_question_event(
                    ev,
                    old(self).config.questions@[0],
                    0,
                    old(self).config.questions@.len() as int,
                ))
            },
            old(self).wf() ==> final(self).wf(),
    {
        match self.status {
            QuizStatus::Lobby => {
                if self.users.len() == 0 || self.config.questions.len() == 0 {
                    return None;
                }
                let ev = self.question_event(0);
                self.status = QuizStatus::Question { id: 0, locked: false };
                ev
            },
            _ => None,
        }
    }

    /// Move on from the live question: to the next question, or to the
    /// finished state past the last one. A no-op in any other status.
    pub fn next(&mut self) -> (r: Option<Event>)
        ensures
            !(old(self).status is Question) ==> r is None && *final(self) == *old(self),
            old(self).status matches QuizStatus::Question { id, .. } ==> ({
                let n = old(self).config.questions@.len() as int;
                &&& id >= n ==> r is None && *final(self) == *old(self)
                &&& id + 1 == n ==> final(self).status is Done && r == Some(Event::Finished)
                &&& id + 1 < n ==> (final(self).status == (QuizStatus::Question {
                    id: (id + 1) as usize,
                    locked: false,
                }) && (r matches Some(ev) && is_question_event(
                    ev,
                    old(self).config.questions@[id + 1],
                    id + 1,
                    n,
                )))
                &&& id < n ==> final(self).config == old(self).config && final(self).users == old(
                    self,
                ).users && final(self).root == old(self).root
            }),
            old(self).wf() ==> final(self).wf(),
    {
        match self.status {
            QuizStatus::Question { id, .. } => {
                let n = self.config.questions.len();
                if id >= n {
                    None
                } else if id + 1 == n {
                    self.status = QuizStatus::Done;
                    Some(Event::Finished)
                } else {
                    let ev = self.question_event(id + 1);
                    self.status = QuizStatus::Question { id: id + 1, locked: false };
                    ev
                }
            },
            _ => None,
        }
    }

    /// Lock the live question against further submissions; a no-op in any
    /// other status.
    pub fn lock_question(&mut self)
        ensures
            old(self).status matches QuizStatus::Question { id, locked } ==> *final(self) == (
            QuizState {
                status: QuizStatus::Question { id, locked: true },
                ..*old(self)
            }),
            !(old(self).status is Question) ==> *final(self) == *old(self),
            old(self).wf() ==> final(self).wf(),
    {
        match self.status {
            QuizStatus::Question { id, .. } => {
                self.status = QuizStatus::Question { id, locked: true };
            },
            _ => {},
        }
    }

    /// Reopen question `index`, unlocked, from any status; a no-op when
    /// `index` is out of range.
    pub fn redo(&mut self, index: usize) -> (r: Option<Event>)
        ensures
            index >= old(self).config.questions@.len() ==> r is None && *final(self) == *old(self),
            index < old(self).config.questions@.len() ==> {
                &&& final(self).status == (QuizStatus::Question { id: index, locked: false })
                &&& final(self).config == old(self).config
                &&& final(self).users == old(self).users
                &&& final(self).root == old(self).root
                &&& (r matches Some(ev) && is_question_event(
                    ev,
                    old(self).config.questions@[index as int],
                    index as int,
                    old(self).config.questions@.len() as int,
                ))
            },
            old(self).wf() ==> final(self).wf(),
    {
        if index >= self.config.questions.len() {
            None
        } else {
            let ev = self.question_event(index);
            self.status = QuizStatus::Question { id: index, locked: false };
            ev
        }
    }

    /// In the lobby, the event listing everyone logged in; nothing
    /// otherwise.
    pub fn lobby(&self) -> (r: Option<Event>)
        ensures
            match self.status {
                QuizStatus::Lobby => r matches Some(ev) && ev matches Event::Lobby { users }
                    && users@ == user_names(self.users@),
                _ => r is None,
            },
    {
        match self.status {
            QuizStatus::Lobby => Some(Event::Lobby { users: self.users() }),
            _ => None,
        }
    }

    /// Store `answer` for its user on the live question. Rejects unknown
    /// users and titles, answers to a question other than the live one,
    /// and answers while the live question is locked; on success stores
    /// the payload with its automatic score, replacing any earlier answer
    /// to the same question, and returns the answer's display text.
    pub fn submit_answer(&mut self, answer: Answer) -> (r: Result<String, String>)
        ensures
            old(self).wf() ==> final(self).wf(),
            ({
                let ui = user_index(old(self).users@, answer.user@);
                let qi = title_index(old(self).config.questions@, answer.question@);
                if ui is None || qi is None {
                    &&& *final(self) == *old(self)
                    &&& (r matches Err(m) && m@ == msg_server_error())
                } else if !(old(self).status matches QuizStatus::Question { id, .. } && id == qi.unwrap()) {
                    &&& *final(self) == *old(self)
                    &&& (r matches Err(m) && m@ == msg_no_question())
                } else if old(self).status matches QuizStatus::Question { locked: true, .. } {
                    &&& *final(self) == *old(self)
                    &&& (r matches Err(m) && m@ == msg_locked())
                } else {
                    let u = old(self).users@[ui.unwrap()];
                    let q = old(self).config.questions@[qi.unwrap()];
                    let sc = match spec_calculate_score(q, answer.answer) {
                        Some(s) => Score::Grade(s),
                        None => Score::Ungraded,
                    };
                    let e = (AnswerEntry {
                        question: answer.question,
                        answer: answer.answer,
                        score: sc,
                    });
                    &&& (r matches Ok(t) && t@ == spec_answer_text(q, answer.answer))
                    &&& final(self).users@.len() == old(self).users@.len()
                    &&& forall|j: int|
                        0 <= j < old(self).users@.len() && j != ui.unwrap()
                            ==> final(self).users@[j] == old(self).users@[j]
                    &&& final(self).users@[ui.unwrap()].name == u.name
                    &&& final(self).users@[ui.unwrap()].bonus == u.bonus
                    &&& final(self).users@[ui.unwrap()].answers@ == (match answer_index(
                        u.answers@,
                        answer.question@,
                    ) {
                        Some(ai) => u.answers@.update(ai, e),
                        None => u.answers@.push(e),
                    })
                    &&& final(self).config == old(self).config
                    &&& final(self).status == old(self).status
                    &&& final(self).root == old(self).root
                }
            }),
    {
        let ui = match self.find_user(&answer.user) {
            Some(i) => i,
            None => {
                return Err(String::from_str("Could not submit answer: server error."));
            },
        };
        let (qi, score, text) = match self.config.question(&answer.question) {
            Some((qi, q)) => (
                qi,
                Score::from_option(q.calculate_score(&answer.answer)),
                q.get_answer_string(&answer.answer),
            ),
            None => {
                return Err(String::from_str("Could not submit answer: server error."));
            },
        };
        match self.status {
            QuizStatus::Question { id, locked } => {
                if id != qi {
                    return Err(String::from_str("Could not submit answer: no question open."));
                }
                if locked {
                    return Err(String::from_str("Could not submit answer: question is locked."));
                }
                let Answer { user: _, question: title, answer: payload } = answer;
                match find_answer(&self.users[ui].answers, &title) {
                    Some(ai) => {
                        self.users[ui].answers[ai] = AnswerEntry {
                            question: title,
                            answer: payload,
                            score,
                        };
                    },
                    None => {
                        self.users[ui].answers.push(
                            AnswerEntry { question: title, answer: payload, score },
                        );
                    },
                }
                proof {
                    if old(self).wf() {
                        lemma_submit_preserves_wf(*old(self), *self, ui as int, qi as int, answer);
                    }
                }
                Ok(text)
            },
            _ => Err(String::from_str("Could not submit answer: no question open.")),
        }
    }

    /// Overwrite the grade of `user`'s answer to the question titled
    /// `question_title`. Does nothing when the user never answered that
    /// question, when no question carries the title, or when the grade
    /// lies outside the question's grading range.
    pub fn update_grade(&mut self, user: &String, question_title: &String, grade: usize)
        ensures
            old(self).wf() ==> final(self).wf(),
            final(self).config == old(self).config,
            final(self).root == old(self).root,
            final(self).status == old(self).status,
            ({
                let ui = user_index(old(self).users@, user@);
                let qi = title_index(old(self).config.questions@, question_title@);
                if ui is Some && qi is Some {
                    let u = old(self).users@[ui.unwrap()];
                    let q = old(self).config.questions@[qi.unwrap()];
                    let ai = answer_index(u.answers@, question_title@);
                    if ai is Some && q.grade_range.min <= grade && grade <= q.grade_range.max {
                        let e = u.answers@[ai.unwrap()];
                        &&& final(self).users@.len() == old(self).users@.len()
                        &&& forall|j: int|
                            0 <= j < old(self).users@.len() && j != ui.unwrap()
                                ==> final(self).users@[j] == old(self).users@[j]
                        &&& final(self).users@[ui.unwrap()].name == u.name
                        &&& final(self).users@[ui.unwrap()].bonus == u.bonus
                        &&& final(self).users@[ui.unwrap()].answers@ == u.answers@.update(
                            ai.unwrap(),
                            (AnswerEntry {
                                question: e.question,
                                answer: e.answer,
                                score: Score::Grade(grade),
                            }),
                        )
                    } else {
                        *final(self) == *old(self)
                    }
                } else {
                    *final(self) == *old(self)
                }
            }),
    {
        let ui = match self.find_user(user) {
            Some(i) => i,
            None => {
                return ;
            },
        };
        let (qi, in_range) = match self.config.question(question_title) {
            Some((qi, q)) => (qi, q.grade_range.min <= grade && grade <= q.grade_range.max),
            None => {
                return ;
            },
        };
        if !in_range {
            return ;
        }
        let ai = match find_answer(&self.users[ui].answers, question_title) {
            Some(a) => a,
            None => {
                return ;
            },
        };
        self.users[ui].answers[ai].score = Score::Grade(grade);
        proof {
            let oa = old(self).users@[ui as int].answers@;
            answer_titles_v(oa).index_of_first_ensures(question_title@);
            assert(answer_titles_v(oa)[ai as int] == oa[ai as int].question@);
            if old(self).wf() {
                lemma_regrade_preserves_wf(
                    *old(self),
                    *self,
                    ui as int,
                    ai as int,
                    question_title@,
                    grade,
                );
            }
        }
    }

    /// Add `bonus` (or subtract, when negative) to `user`'s total,
    /// saturating at the representable extremes. Fails when no user
    /// carries that name.
    pub fn add_bonus(&mut self, user: &String, bonus: i32) -> (r: Result<(), Error>)
        ensures
            old(self).wf() ==> final(self).wf(),
            r is Err <==> user_index(old(self).users@, user@) is None,
            r is Err ==> *final(self) == *old(self),
            r is Ok ==> (user_index(old(self).users@, user@) matches Some(ui) && {
                let u = old(self).users@[ui];
                let nb = u.bonus + bonus;
                &&& final(self).users@.len() == old(self).users@.len()
                &&& forall|j: int|
                    0 <= j < old(self).users@.len() && j != ui ==> final(self).users@[j] == old(
                        self,
                    ).users@[j]
                &&& final(self).users@[ui].name == u.name
                &&& final(self).users@[ui].answers == u.answers
                &&& final(self).users@[ui].bonus == (if nb > i64::MAX {
                    i64::MAX
                } else if nb < i64::MIN {
                    i64::MIN
                } else {
                    nb as i64
                })
                &&& final(self).config == old(self).config
                &&& final(self).status == old(self).status
                &&& final(self).root == old(self).root
            }),
    {
        let ui = match self.find_user(user) {
            Some(i) => i,
            None => {
                return Err(Error::Other);
            },
        };
        let cur = self.users[ui].bonus;
        let nb = match cur.checked_add(bonus as i64) {
            Some(v) => v,
            None => if bonus >= 0 {
                i64::MAX
            } else {
                i64::MIN
            },
        };
        self.users[ui].bonus = nb;
        proof {
            if old(self).wf() {
                assert forall|i: int, j: int|
                    0 <= i < j < self.users@.len() implies self.users@[i].name@
                    != self.users@[j].name@ by {
                    assert(self.users@[i].name == old(self).users@[i].name);
                    assert(self.users@[j].name == old(self).users@[j].name);
                }
                assert forall|i: int|
                    0 <= i < self.users@.len() implies user_wf(
                    #[trigger] self.users@[i],
                    self.config.questions@,
                ) by {
                    if i != ui {
                        assert(self.users@[i] == old(self).users@[i]);
                    } else {
                        assert(self.users@[i].answers == old(self).users@[i].answers);
                    }
                }
            }
        }
        Ok(())
    }
}

/// Storing one answer with its automatic score keeps the state invariant:
/// the grade never exceeds the question's maximum, and the answer map
/// keeps one entry per question.
proof fn lemma_submit_preserves_wf(
    pre: QuizState,
    post: QuizState,
    ui: int,
    qi: int,
    answer: Answer,
)
    requires
        pre.wf(),
        0 <= ui < pre.users@.len(),
        title_index(pre.config.questions@, answer.question@) == Some(qi),
        post.config == pre.config,
        post.status == pre.status,
        post.users@.len() == pre.users@.len(),
        forall|j: int| 0 <= j < pre.users@.len() && j != ui ==> post.users@[j] == pre.users@[j],
        post.users@[ui].name == pre.users@[ui].name,
        post.users@[ui].answers@ == ({
            let u = pre.users@[ui];
            let q = pre.config.questions@[qi];
            let sc = match spec_calculate_score(q, answer.answer) {
                Some(s) => Score::Grade(s),
                None => Score::Ungraded,
            };
            let e = (AnswerEntry { question: answer.question, answer: answer.answer, score: sc });
            match answer_index(u.answers@, answer.question@) {
                Some(ai) => u.answers@.update(ai, e),
                None => u.answers@.push(e),
            }
        }),
    ensures
        post.wf(),
{
    let u = pre.users@[ui];
    let q = pre.config.questions@[qi];
    titles_v(pre.config.questions@).index_of_first_ensures(answer.question@);
    assert(0 <= qi < pre.config.questions@.len());
    let sc = match spec_calculate_score(q, answer.answer) {
        Some(s) => Score::Grade(s),
        None => Score::Ungraded,
    };
    let e = (AnswerEntry { question: answer.question, answer: answer.answer, score: sc });
    assert(entry_wf(e, pre.config.questions@)) by {
        match spec_calculate_score(q, answer.answer) {
            Some(s) => {
                assert(s <= q.grade_range.max);
            },
            None => {},
        }
    }
    assert forall|i: int, j: int|
        0 <= i < j < post.users@.len() implies post.users@[i].name@ != post.users@[j].name@ by {
        assert(post.users@[i].name@ == pre.users@[i].name@);
        assert(post.users@[j].name@ == pre.users@[j].name@);
    }
    answer_titles_v(u.answers@).index_of_first_ensures(answer.question@);
    assert forall|k: int|
        0 <= k < post.users@.len() implies user_wf(#[trigger] post.users@[k], post.config.questions@) by {
        if k != ui {
            assert(post.users@[k] == pre.users@[k]);
        } else {
            let na = post.users@[ui].answers@;
            match answer_index(u.answers@, answer.question@) {
                Some(ai) => {
                    assert forall|x: int, y: int|
                        0 <= x < y < na.len() implies na[x].question@ != na[y].question@ by {
                        assert(answer_titles_v(u.answers@)[ai] == u.answers@[ai].question@);
                        if x != ai {
                            assert(na[x] == u.answers@[x]);
                        }
                        if y != ai {
                            assert(na[y] == u.answers@[y]);
                        }
                    }
                    assert forall|x: int| 0 <= x < na.len() implies entry_wf(
                        #[trigger] na[x],
                        post.config.questions@,
                    ) by {
                        if x != ai {
                            assert(na[x] == u.answers@[x]);
                        }
                    }
                },
                None => {
                    assert forall|x: int, y: int|
                        0 <= x < y < na.len() implies na[x].question@ != na[y].question@ by {
                        if y == na.len() - 1 {
                            assert(answer_titles_v(u.answers@)[x] == u.answers@[x].question@);
                        } else {
                            assert(na[x] == u.answers@[x]);
                            assert(na[y] == u.answers@[y]);
                        }
                    }
                    assert forall|x: int| 0 <= x < na.len() implies entry_wf(
                        #[trigger] na[x],
                        post.config.questions@,
                    ) by {
                        if x < na.len() - 1 {
                            assert(na[x] == u.answers@[x]);
                        }
                    }
                },
            }
        }
    }
}

/// The stored answer entry for the question titled `t`, if any.
pub open spec fn lookup_entry(ans: Seq<AnswerEntry>, t: Seq<char>) -> Option<AnswerEntry> {
    match answer_index(ans, t) {
        Some(i) => Some(ans[i]),
        None => None,
    }
}

/// Law: storing an answer — the way `submit_answer` does, replacing the
/// entry for its question or appending a first one — leaves exactly one
/// entry for that (user, question) pair, holding the value stored last;
/// the user's entries for every other question, and every other user, are
/// untouched. Interleaved submissions therefore lose nothing: each pair
/// ends at its last submitted value.
pub proof fn lemma_submit_last_write(
    pre: QuizState,
    post: QuizState,
    ui: int,
    title: Seq<char>,
    entry: AnswerEntry,
)
    requires
        pre.wf(),
        0 <= ui < pre.users@.len(),
        entry.question@ == title,
        post.users@.len() == pre.users@.len(),
        forall|j: int| 0 <= j < pre.users@.len() && j != ui ==> post.users@[j] == pre.users@[j],
        post.users@[ui].answers@ == (match answer_index(pre.users@[ui].answers@, title) {
            Some(ai) => pre.users@[ui].answers@.update(ai, entry),
            None => pre.users@[ui].answers@.push(entry),
        }),
    ensures
        lookup_entry(post.users@[ui].answers@, title) == Some(entry),
        forall|t: Seq<char>|
            t != title ==> #[trigger] lookup_entry(post.users@[ui].answers@, t) == lookup_entry(
                pre.users@[ui].answers@,
                t,
            ),
{
    let oa = pre.users@[ui].answers@;
    let na = post.users@[ui].answers@;
    answer_titles_v(oa).index_of_first_ensures(title);
    assert forall|k: int| 0 <= k < oa.len() implies answer_titles_v(oa)[k]
        == oa[k].question@ by {}
    match answer_index(oa, title) {
        Some(ai) => {
            assert(oa[ai].question@ == title);
            assert(answer_titles_v(na) =~= answer_titles_v(oa)) by {
                assert forall|k: int| 0 <= k < na.len() implies answer_titles_v(na)[k]
                    == answer_titles_v(oa)[k] by {
                    if k != ai {
                        assert(na[k] == oa[k]);
                    } else {
                        assert(na[k].question@ == title);
                    }
                }
            }
            assert(answer_index(na, title) == Some(ai));
            assert(na[ai] == entry);
            assert forall|t: Seq<char>| t != title implies #[trigger] lookup_entry(na, t)
                == lookup_entry(oa, t) by {
                assert(answer_index(na, t) == answer_index(oa, t));
                answer_titles_v(oa).index_of_first_ensures(t);
                match answer_index(oa, t) {
                    Some(k) => {
                        assert(oa[k].question@ == t);
                        assert(k != ai);
                        assert(na[k] == oa[k]);
                    },
                    None => {},
                }
            }
        },
        None => {
            let n = oa.len() as int;
            assert forall|k: int| 0 <= k < n implies oa[k].question@ != title by {
                assert(answer_titles_v(oa)[k] == oa[k].question@);
            }
            assert forall|k: int| 0 <= k < na.len() implies answer_titles_v(na)[k]
                == na[k].question@ by {}
            assert(na[n].question@ == title);
            lemma_first_index_is(answer_titles_v(na), title, n);
            assert(na[n] == entry);
            assert forall|t: Seq<char>| t != title implies #[trigger] lookup_entry(na, t)
                == lookup_entry(oa, t) by {
                answer_titles_v(oa).index_of_first_ensures(t);
                match answer_index(oa, t) {
                    Some(k) => {
                        assert(oa[k].question@ == t);
                        assert(na[k] == oa[k]);
                        assert forall|j: int| 0 <= j < k implies answer_titles_v(na)[j] != t by {
                            assert(na[j] == oa[j]);
                            assert(answer_titles_v(oa)[j] != t);
                        }
                        lemma_first_index_is(answer_titles_v(na), t, k);
                    },
                    None => {
                        assert forall|j: int| 0 <= j < na.len() implies answer_titles_v(na)[j]
                            != t by {
                            if j < n {
                                assert(na[j] == oa[j]);
                                assert(answer_titles_v(oa)[j] != t);
                            } else {
                                assert(na[j].question@ == title);
                            }
                        }
                        lemma_first_index_none(answer_titles_v(na), t);
                    },
                }
            }
        },
    }
}

/// Law: the ranking of a well-formed state is sorted by descending total,
/// ties keep their login order, and no user's sum of graded scores ever
/// exceeds the sum of all questions' maximum scores.
pub proof fn lemma_ranking_bounds(s: QuizState)
    requires
        s.wf(),
    ensures
        sorted_desc(sort_desc(ranking_pairs(s.users@, s.config.questions@))),
        forall|v: i128|
            #[trigger] sort_desc(ranking_pairs(s.users@, s.config.questions@)).filter(
                same_total(v),
            ) == ranking_pairs(s.users@, s.config.questions@).filter(same_total(v)),
        forall|i: int|
            0 <= i < s.users@.len() ==> grade_sum(
                #[trigger] s.users@[i],
                s.config.questions@,
                s.config.questions@.len() as int,
            ) <= sum_max(s.config.questions@, s.config.questions@.len() as int),
{
    lemma_sort_desc_sorted(ranking_pairs(s.users@, s.config.questions@));
    assert forall|v: i128|
        #[trigger] sort_desc(ranking_pairs(s.users@, s.config.questions@)).filter(same_total(v))
        == ranking_pairs(s.users@, s.config.questions@).filter(same_total(v)) by {
        lemma_sort_desc_stable(ranking_pairs(s.users@, s.config.questions@), v);
    }
    assert forall|i: int| 0 <= i < s.users@.len() implies grade_sum(
        #[trigger] s.users@[i],
        s.config.questions@,
        s.config.questions@.len() as int,
    ) <= sum_max(s.config.questions@, s.config.questions@.len() as int) by {
        lemma_grade_sum_le(s.users@[i], s.config.questions@, s.config.questions@.len() as int);
    }
}

/// Overwriting one grade within the question's range keeps the state
/// invariant.
proof fn lemma_regrade_preserves_wf(
    pre: QuizState,
    post: QuizState,
    ui: int,
    ai: int,
    title: Seq<char>,
    grade: usize,
)
    requires
        pre.wf(),
        0 <= ui < pre.users@.len(),
        0 <= ai < pre.users@[ui].answers@.len(),
        pre.users@[ui].answers@[ai].question@ == title,
        title_index(pre.config.questions@, title) matches Some(qi) && grade
            <= pre.config.questions@[qi].grade_range.max,
        post.config == pre.config,
        post.status == pre.status,
        post.users@.len() == pre.users@.len(),
        forall|j: int| 0 <= j < pre.users@.len() && j != ui ==> post.users@[j] == pre.users@[j],
        post.users@[ui].name == pre.users@[ui].name,
        post.users@[ui].answers@.len() == pre.users@[ui].answers@.len(),
        forall|x: int|
            0 <= x < pre.users@[ui].answers@.len() && x != ai ==> post.users@[ui].answers@[x]
                == pre.users@[ui].answers@[x],
        post.users@[ui].answers@[ai].question == pre.users@[ui].answers@[ai].question,
        post.users@[ui].answers@[ai].score == Score::Grade(grade),
    ensures
        post.wf(),
{
    assert forall|i: int, j: int|
        0 <= i < j < post.users@.len() implies post.users@[i].name@ != post.users@[j].name@ by {
        assert(post.users@[i].name@ == pre.users@[i].name@);
        assert(post.users@[j].name@ == pre.users@[j].name@);
    }
    assert forall|k: int|
        0 <= k < post.users@.len() implies user_wf(#[trigger] post.users@[k], post.config.questions@) by {
        if k != ui {
            assert(post.users@[k] == pre.users@[k]);
        } else {
            let oa = pre.users@[ui].answers@;
            let na = post.users@[ui].answers@;
            assert forall|x: int, y: int|
                0 <= x < y < na.len() implies na[x].question@ != na[y].question@ by {
                assert(na[x].question == oa[x].question);
                assert(na[y].question == oa[y].question);
            }
            assert forall|x: int| 0 <= x < na.len() implies entry_wf(
                #[trigger] na[x],
                post.config.questions@,
            ) by {
                if x != ai {
                    assert(na[x] == oa[x]);
                } else {
                    assert(na[ai].question@ == title);
                }
            }
        }
    }
}

} // verus!
