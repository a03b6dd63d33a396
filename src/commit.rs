//! Commit messages and the identity that signs a commit.
use vstd::prelude::*;

use crate::branch::{all_digits, char_of_digit, digit_char, digit_value, digits_value, is_digit};
use crate::config::BranchInfo;
use crate::error::{Error, ErrorView};

verus! {

/// The decimal digits of `n`, without leading zeros.
pub open spec fn decimal(n: nat) -> Seq<char>
    decreases n,
{
    if n < 10 {
        seq![digit_char(n)]
    } else {
        decimal(n / 10).push(digit_char(n % 10))
    }
}

/// The subject line of a commit: `(<team>-<issue>): <body>`.
pub open spec fn render_subject(team: Seq<char>, issue: nat, body: Seq<char>) -> Seq<char> {
    seq!['('] + team + seq!['-'] + decimal(issue) + seq![')', ':', ' '] + body
}

/// A feature commit's text: `feat`, a `!` where the change is breaking, then
/// the subject.
pub open spec fn feat_text(breaking: bool, subject: Seq<char>) -> Seq<char> {
    if breaking {
        seq!['f', 'e', 'a', 't', '!'] + subject
    } else {
        seq!['f', 'e', 'a', 't'] + subject
    }
}

/// A fix commit's text: `fix`, then the subject.
pub open spec fn fix_text(subject: Seq<char>) -> Seq<char> {
    seq!['f', 'i', 'x'] + subject
}

/// The position of the first `c` in `s`, or -1.
pub open spec fn index_of(s: Seq<char>, c: char) -> int
    decreases s.len(),
{
    if s.len() == 0 {
        -1
    } else if s[0] == c {
        0
    } else if index_of(s.drop_first(), c) < 0 {
        -1
    } else {
        index_of(s.drop_first(), c) + 1
    }
}

/// The position of the last `c` in `s`, or -1.
pub open spec fn last_index_of(s: Seq<char>, c: char) -> int
    decreases s.len(),
{
    if s.len() == 0 {
        -1
    } else if s.last() == c {
        s.len() - 1
    } else {
        last_index_of(s.drop_last(), c)
    }
}

/// Reads a subject line back into its team, issue number and body: the team
/// and issue stand between the opening parenthesis and the first `)`, split at
/// the last hyphen there, and `): ` follows them.
pub open spec fn parse_subject(s: Seq<char>) -> Option<(Seq<char>, nat, Seq<char>)> {
    let close = index_of(s, ')');
    if s.len() > 0 && s[0] == '(' && close > 0 && close + 3 <= s.len() && s.subrange(
        close,
        close + 3,
    ) == seq![')', ':', ' '] {
        let inner = s.subrange(1, close);
        let dash = last_index_of(inner, '-');
        let digits = inner.subrange(dash + 1, inner.len() as int);
        if dash >= 0 && digits.len() > 0 && all_digits(digits) {
            Some((inner.subrange(0, dash), digits_value(digits), s.subrange(close + 3, s.len() as int)))
        } else {
            None
        }
    } else {
        None
    }
}

proof fn lemma_decimal_digits(n: nat)
    ensures
        decimal(n).len() > 0,
        all_digits(decimal(n)),
        digits_value(decimal(n)) == n,
    decreases n,
{
    let c = digit_char(n % 10);
    assert(is_digit(c) && (c as u32 - '0' as u32) as nat == n % 10);
    if n >= 10 {
        lemma_decimal_digits(n / 10);
        let d = decimal(n / 10);
        assert(d.push(c).drop_last() =~= d);
        assert(decimal(n) == d.push(c));
        assert(digits_value(d.push(c)) == digits_value(d) * 10 + digit_value(c));
        assert(n == (n / 10) * 10 + n % 10) by (nonlinear_arith);
        assert(digit_value(c) == n % 10);
        assert(digits_value(d) == n / 10);
        assert forall|k: int| 0 <= k < d.len() + 1 implies is_digit(#[trigger] d.push(c)[k]) by {
            if k < d.len() {
                assert(d.push(c)[k] == d[k]);
            }
        }
    } else {
        assert(seq![c].drop_last() =~= Seq::<char>::empty());
        assert(digits_value(Seq::<char>::empty()) == 0);
        assert(digits_value(seq![c]) == digit_value(c));
        assert(n % 10 == n);
    }
}

proof fn lemma_index_of_split(a: Seq<char>, c: char, b: Seq<char>)
    requires
        !a.contains(c),
    ensures
        index_of(a + seq![c] + b, c) == a.len(),
    decreases a.len(),
{
    let s = a + seq![c] + b;
    if a.len() > 0 {
        assert(s[0] == a[0]);
        assert(s.drop_first() =~= a.drop_first() + seq![c] + b);
        assert(!a.drop_first().contains(c)) by {
            if a.drop_first().contains(c) {
                let k = choose|k: int| 0 <= k < a.drop_first().len() && a.drop_first()[k] == c;
                assert(a[k + 1] == c);
            }
        }
        lemma_index_of_split(a.drop_first(), c, b);
    } else {
        assert(s[0] == c);
    }
}

proof fn lemma_last_index_of_split(a: Seq<char>, c: char, b: Seq<char>)
    requires
        !b.contains(c),
    ensures
        last_index_of(a + seq![c] + b, c) == a.len(),
    decreases b.len(),
{
    let s = a + seq![c] + b;
    if b.len() > 0 {
        assert(s.last() == b.last());
        assert(s.drop_last() =~= a + seq![c] + b.drop_last());
        assert(!b.drop_last().contains(c)) by {
            if b.drop_last().contains(c) {
                let k = choose|k: int| 0 <= k < b.drop_last().len() && b.drop_last()[k] == c;
                assert(b[k] == c);
            }
        }
        lemma_last_index_of_split(a, c, b.drop_last());
    } else {
        assert(s =~= a.push(c));
    }
}

/// Reading a rendered subject back gives the team, issue number and body that
/// it was rendered from, for any team name without a closing parenthesis.
pub proof fn lemma_subject_round_trip(team: Seq<char>, issue: nat, body: Seq<char>)
    requires
        !team.contains(')'),
    ensures
        parse_subject(render_subject(team, issue, body)) == Some((team, issue, body)),
{
    let d = decimal(issue);
    lemma_decimal_digits(issue);
    let s = render_subject(team, issue, body);
    let a = seq!['('] + team + seq!['-'] + d;
    let rest = seq![':', ' '] + body;
    assert(s =~= a + seq![')'] + rest);
    assert(!a.contains(')')) by {
        if a.contains(')') {
            let k = choose|k: int| 0 <= k < a.len() && a[k] == ')';
            if 1 <= k < 1 + team.len() {
                assert(team[k - 1] == ')');
            } else if k >= 2 + team.len() {
                assert(d[k - 2 - team.len()] == ')');
                assert(is_digit(d[k - 2 - team.len()]));
            }
        }
    }
    lemma_index_of_split(a, ')', rest);
    let close = a.len() as int;
    assert(s.subrange(close, close + 3) =~= seq![')', ':', ' ']);
    let inner = s.subrange(1, close);
    assert(inner =~= team + seq!['-'] + d);
    assert(!d.contains('-')) by {
        if d.contains('-') {
            let k = choose|k: int| 0 <= k < d.len() && d[k] == '-';
            assert(is_digit(d[k]));
        }
    }
    lemma_last_index_of_split(team, '-', d);
    assert(inner.subrange(team.len() + 1int, inner.len() as int) =~= d);
    assert(inner.subrange(0, team.len() as int) =~= team);
    assert(s.subrange(close + 3, s.len() as int) =~= body);
}

/// Rendering is injective: two subjects with the same text, over team names
/// without a closing parenthesis, have the same team, issue number and body.
pub proof fn lemma_subject_injective(
    team1: Seq<char>,
    issue1: nat,
    body1: Seq<char>,
    team2: Seq<char>,
    issue2: nat,
    body2: Seq<char>,
)
    requires
        !team1.contains(')'),
        !team2.contains(')'),
        render_subject(team1, issue1, body1) == render_subject(team2, issue2, body2),
    ensures
        team1 == team2,
        issue1 == issue2,
        body1 == body2,
{
    lemma_subject_round_trip(team1, issue1, body1);
    lemma_subject_round_trip(team2, issue2, body2);
}

/// The kind tag of a commit text: what comes before the subject's opening
/// parenthesis.
pub open spec fn kind_tag(text: Seq<char>) -> Seq<char> {
    text.subrange(0, index_of(text, '('))
}

/// A feature commit's kind tag holds a `!` exactly when the change is marked
/// breaking; a fix commit's kind tag never holds one.
pub proof fn lemma_breaking_marker(breaking: bool, team: Seq<char>, issue: nat, body: Seq<char>)
    ensures
        kind_tag(feat_text(breaking, render_subject(team, issue, body))).contains('!')
            <==> breaking,
        !kind_tag(fix_text(render_subject(team, issue, body))).contains('!'),
{
    let subject = render_subject(team, issue, body);
    let rest = subject.drop_first();
    assert(subject =~= seq!['('] + rest);
    let feat_tag = if breaking {
        seq!['f', 'e', 'a', 't', '!']
    } else {
        seq!['f', 'e', 'a', 't']
    };
    assert(feat_text(breaking, subject) =~= feat_tag + seq!['('] + rest);
    assert(!feat_tag.contains('(')) by {
        if feat_tag.contains('(') {
            let k = choose|k: int| 0 <= k < feat_tag.len() && feat_tag[k] == '(';
        }
    }
    lemma_index_of_split(feat_tag, '(', rest);
    assert(kind_tag(feat_text(breaking, subject)) =~= feat_tag);
    if breaking {
        assert(feat_tag[4] == '!');
    } else {
        assert(!feat_tag.contains('!')) by {
            if feat_tag.contains('!') {
                let k = choose|k: int| 0 <= k < feat_tag.len() && feat_tag[k] == '!';
            }
        }
    }
    let fix_tag = seq!['f', 'i', 'x'];
    assert(fix_text(subject) =~= fix_tag + seq!['('] + rest);
    assert(!fix_tag.contains('(')) by {
        if fix_tag.contains('(') {
            let k = choose|k: int| 0 <= k < fix_tag.len() && fix_tag[k] == '(';
        }
    }
    lemma_index_of_split(fix_tag, '(', rest);
    assert(kind_tag(fix_text(subject)) =~= fix_tag);
    assert(!fix_tag.contains('!')) by {
        if fix_tag.contains('!') {
            let k = choose|k: int| 0 <= k < fix_tag.len() && fix_tag[k] == '!';
        }
    }
}

/// Relies on `String::push`: appends one character.
#[verifier::external_body]
fn push_char(s: &mut String, c: char)
    ensures
        final(s)@ == old(s)@.push(c),
{
    s.push(c)
}

/// Appends the characters of `t` to `s`.
fn push_str(s: &mut String, t: &String)
    ensures
        final(s)@ == old(s)@ + t@,
{
    let n = t.as_str().unicode_len();
    let mut i: usize = 0;
    while i < n
        invariant
            n == t@.len(),
            i <= n,
            s@ == old(s)@ + t@.subrange(0, i as int),
        decreases n - i,
    {
        let c = t.as_str().get_char(i);
        push_char(s, c);
        assert(t@.subrange(0, i + 1) =~= t@.subrange(0, i as int).push(c));
        i = i + 1;
    }
    assert(t@.subrange(0, n as int) =~= t@);
}

/// Appends the decimal digits of `n` to `s`.
fn push_decimal(s: &mut String, n: u32)
    ensures
        final(s)@ == old(s)@ + decimal(n as nat),
    decreases n,
{
    if n >= 10 {
        push_decimal(s, n / 10);
    }
    let c = char_of_digit(n % 10);
    push_char(s, c);
    assert(final(s)@ =~= old(s)@ + decimal(n as nat));
}

/// The identity that authors and commits a change.
#[derive(Debug)]
pub struct Author {
    name: String,
    email: String,
}

impl View for Author {
    type V = (Seq<char>, Seq<char>);

    closed spec fn view(&self) -> (Seq<char>, Seq<char>) {
        (self.name@, self.email@)
    }
}

impl Author {
    /// Builds an identity from the configured user name and email. A missing
    /// or empty name fails with `MissingUserName`; otherwise a missing or empty
    /// email fails with `MissingUserEmail`.
    pub fn new(name: Option<String>, email: Option<String>) -> (r: Result<Author, Error>)
        ensures
            match (name, email) {
                (Some(n), Some(e)) if n@.len() > 0 && e@.len() > 0 => (r matches Ok(a) && a@ == (n@, e@)),
                (Some(n), _) if n@.len() > 0 => (r matches Err(err) && err@ == ErrorView::MissingUserEmail),
                _ => (r matches Err(err) && err@ == ErrorView::MissingUserName),
            },
    {
        let name = match name {
            Some(n) => n,
            None => return Err(Error::MissingUserName),
        };
        if name.as_str().unicode_len() == 0 {
            return Err(Error::MissingUserName);
        }
        let email = match email {
            Some(e) => e,
            None => return Err(Error::MissingUserEmail),
        };
        if email.as_str().unicode_len() == 0 {
            return Err(Error::MissingUserEmail);
        }
        Ok(Author { name, email })
    }

    /// The user name.
    pub fn name(&self) -> (r: &String)
        ensures
            r@ == self@.0,
    {
        &self.name
    }

    /// The user email.
    pub fn email(&self) -> (r: &String)
        ensures
            r@ == self@.1,
    {
        &self.email
    }

    /// The identity as `<name> <<email>>`.
    pub fn to_string(&self) -> (r: String)
        ensures
            r@ == self@.0 + seq![' ', '<'] + self@.1 + seq!['>'],
    {
        let mut s = String::new();
        push_str(&mut s, &self.name);
        push_char(&mut s, ' ');
        push_char(&mut s, '<');
        push_str(&mut s, &self.email);
        push_char(&mut s, '>');
        assert(s@ =~= self@.0 + seq![' ', '<'] + self@.1 + seq!['>']);
        s
    }
}

/// A commit subject: the team, the issue number and the free-text body.
#[derive(Debug)]
pub struct CommitMessage {
    pub team_name: String,
    pub issue_number: u32,
    pub message: String,
}

impl CommitMessage {
    /// The text of this subject.
    pub open spec fn rendered(&self) -> Seq<char> {
        render_subject(self.team_name@, self.issue_number as nat, self.message@)
    }

    /// Whether team and body are both present.
    pub open spec fn wf(&self) -> bool {
        self.team_name@.len() > 0 && self.message@.len() > 0
    }

    /// A subject with the given fields. An empty team name fails with
    /// `EmptyTeamName`, otherwise an empty body fails with `EmptyMessage`.
    pub fn new(team_name: String, issue_number: u32, message: String) -> (r: Result<
        CommitMessage,
        Error,
    >)
        ensures
            team_name@.len() == 0 ==> (r matches Err(e) && e@ == ErrorView::EmptyTeamName),
            team_name@.len() > 0 && message@.len() == 0 ==> (r matches Err(e) && e@
                == ErrorView::EmptyMessage),
            team_name@.len() > 0 && message@.len() > 0 ==> (r matches Ok(m) && m.wf()
                && m.team_name@ == team_name@ && m.issue_number == issue_number && m.message@
                == message@),
    {
        if team_name.as_str().unicode_len() == 0 {
            return Err(Error::EmptyTeamName);
        }
        if message.as_str().unicode_len() == 0 {
            return Err(Error::EmptyMessage);
        }
        Ok(CommitMessage { team_name, issue_number, message })
    }

    /// A subject for the team and issue of a branch.
    pub fn from_branch(info: BranchInfo, message: String) -> (r: Result<CommitMessage, Error>)
        ensures
            info.0@.len() == 0 ==> (r matches Err(e) && e@ == ErrorView::EmptyTeamName),
            info.0@.len() > 0 && message@.len() == 0 ==> (r matches Err(e) && e@
                == ErrorView::EmptyMessage),
            info.0@.len() > 0 && message@.len() > 0 ==> (r matches Ok(m) && m.wf()
                && m.team_name@ == info.0@ && m.issue_number == info.1 && m.message@
                == message@),
    {
        CommitMessage::new(info.0, info.1, message)
    }

    /// Appends the subject's text to `s`.
    fn write_to(&self, s: &mut String)
        ensures
            final(s)@ == old(s)@ + self.rendered(),
    {
        push_char(s, '(');
        push_str(s, &self.team_name);
        push_char(s, '-');
        push_decimal(s, self.issue_number);
        push_char(s, ')');
        push_char(s, ':');
        push_char(s, ' ');
        push_str(s, &self.message);
        assert(final(s)@ =~= old(s)@ + self.rendered());
    }

    /// The subject as `(<team>-<issue>): <body>`.
    pub fn to_string(&self) -> (r: String)
        ensures
            r@ == self.rendered(),
    {
        let mut s = String::new();
        self.write_to(&mut s);
        assert(s@ =~= self.rendered());
        s
    }
}

/// A feature commit message, possibly marked as a breaking change.
#[derive(Debug)]
pub struct FeatMessage {
    pub message: CommitMessage,
    pub breaking: bool,
}

impl FeatMessage {
    /// The commit text of this message.
    pub open spec fn rendered(&self) -> Seq<char> {
        feat_text(self.breaking, self.message.rendered())
    }

    /// A feature message for the team and issue of a branch.
    pub fn new(info: BranchInfo, message: String, breaking: bool) -> (r: Result<FeatMessage, Error>)
        ensures
            info.0@.len() == 0 ==> (r matches Err(e) && e@ == ErrorView::EmptyTeamName),
            info.0@.len() > 0 && message@.len() == 0 ==> (r matches Err(e) && e@
                == ErrorView::EmptyMessage),
            info.0@.len() > 0 && message@.len() > 0 ==> (r matches Ok(m) && m.message.wf()
                && m.message.team_name@ == info.0@ && m.message.issue_number == info.1
                && m.message.message@ == message@ && m.breaking == breaking),
    {
        match CommitMessage::from_branch(info, message) {
            Ok(m) => Ok(FeatMessage { message: m, breaking }),
            Err(e) => Err(e),
        }
    }

    /// The message as `feat(<team>-<issue>): <body>`, with `feat!` for a
    /// breaking change.
    pub fn to_string(&self) -> (r: String)
        ensures
            r@ == self.rendered(),
    {
        let mut s = String::new();
        push_char(&mut s, 'f');
        push_char(&mut s, 'e');
        push_char(&mut s, 'a');
        push_char(&mut s, 't');
        if self.breaking {
            push_char(&mut s, '!');
        }
        self.message.write_to(&mut s);
        assert(s@ =~= self.rendered());
        s
    }
}

/// A fix commit message.
#[derive(Debug)]
pub struct FixMessage {
    pub message: CommitMessage,
}

impl FixMessage {
    /// The commit text of this message.
    pub open spec fn rendered(&self) -> Seq<char> {
        fix_text(self.message.rendered())
    }

    /// A fix message for the team and issue of a branch.
    pub fn new(info: BranchInfo, message: String) -> (r: Result<FixMessage, Error>)
        ensures
            info.0@.len() == 0 ==> (r matches Err(e) && e@ == ErrorView::EmptyTeamName),
            info.0@.len() > 0 && message@.len() == 0 ==> (r matches Err(e) && e@
                == ErrorView::EmptyMessage),
            info.0@.len() > 0 && message@.len() > 0 ==> (r matches Ok(m) && m.message.wf()
                && m.message.team_name@ == info.0@ && m.message.issue_number == info.1
                && m.message.message@ == message@),
    {
        match CommitMessage::from_branch(info, message) {
            Ok(m) => Ok(FixMessage { message: m }),
            Err(e) => Err(e),
        }
    }

    /// The message as `fix(<team>-<issue>): <body>`.
    pub fn to_string(&self) -> (r: String)
        ensures
            r@ == self.rendered(),
    {
        let mut s = String::new();
        push_char(&mut s, 'f');
        push_char(&mut s, 'i');
        push_char(&mut s, 'x');
        self.message.write_to(&mut s);
        assert(s@ =~= self.rendered());
        s
    }
}

} // verus!
