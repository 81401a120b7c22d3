//! Completion queries, candidate sets, and the quoting of inserted text.

use crate::domain::text::seq_starts_with;
use crate::domain::{Error, Text, TextIndex, TextSpan, TextUnit};
use vstd::prelude::*;

verus! {

/// The quoting in force where a completed word is inserted.
#[derive(Debug, Clone, Copy, PartialEq, Eq, Hash, Structural)]
pub enum QuoteStyle {
    /// Outside quotes: special characters are escaped with a backslash.
    Unquoted,
    /// Inside single quotes.
    Single,
    /// Inside double quotes.
    Double,
}

/// An owned completion request bound to one exact line and cursor.
#[derive(Debug)]
pub struct CompletionQuery {
    line: Text,
    cursor: TextIndex,
    replacement: TextSpan,
    stem: Text,
    quote: QuoteStyle,
    separators: Text,
}

/// A candidate by value.
pub ghost struct CandidateModel {
    pub insertion: Seq<TextUnit>,
    pub display: Option<Seq<TextUnit>>,
    pub suffix: Option<Seq<TextUnit>>,
}

pub open spec fn text_opt(t: Option<Text>) -> Option<Seq<TextUnit>> {
    match t {
        Some(t) => Some(t@),
        None => None,
    }
}

/// One completion candidate.
#[derive(Debug)]
pub struct CompletionCandidate {
    insertion: Text,
    display: Option<Text>,
    suffix: Option<Text>,
}

impl View for CompletionCandidate {
    type V = CandidateModel;

    closed spec fn view(&self) -> CandidateModel {
        CandidateModel { insertion: self.insertion@, display: text_opt(self.display), suffix: text_opt(self.suffix) }
    }
}

impl CompletionQuery {
    /// The line, cursor and replacement agree.
    #[verifier::type_invariant]
    pub closed spec fn wf(&self) -> bool {
        &&& self.cursor@ <= self.line@.len()
        &&& self.replacement@.1 <= self.line@.len()
        &&& self.replacement@.0 <= self.replacement@.1
    }

    /// The boundaries of a query lie within its line.
    pub proof fn lemma_wf(&self)
        requires
            self.wf(),
        ensures
            self.cursor_view() <= self.line_view().len(),
            self.replacement_view().0 <= self.replacement_view().1 <= self.line_view().len(),
    {
    }

    pub closed spec fn line_view(&self) -> Seq<TextUnit> {
        self.line@
    }

    pub closed spec fn cursor_view(&self) -> nat {
        self.cursor@
    }

    pub closed spec fn replacement_view(&self) -> (nat, nat) {
        self.replacement@
    }

    pub closed spec fn stem_view(&self) -> Seq<TextUnit> {
        self.stem@
    }

    pub closed spec fn quote_view(&self) -> QuoteStyle {
        self.quote
    }

    pub closed spec fn separators_view(&self) -> Seq<TextUnit> {
        self.separators@
    }

    /// A query over `line` at `cursor`, completing `stem` by replacing
    /// `replacement`. Both boundaries are checked against the line.
    pub fn new(
        line: Text,
        cursor: TextIndex,
        replacement: TextSpan,
        stem: Text,
        quote: QuoteStyle,
        separators: Text,
    ) -> (result: Result<Self, Error>)
        ensures
            cursor@ > line@.len() ==> result == Err::<Self, Error>(
                Error::TextIndexOutOfBounds { index: cursor@ as usize, len: line@.len() as usize },
            ),
            cursor@ <= line@.len() && replacement@.1 > line@.len() ==> result == Err::<Self, Error>(
                Error::InvalidTextSpan {
                    start: replacement@.0 as usize,
                    end: replacement@.1 as usize,
                    len: line@.len() as usize,
                },
            ),
            cursor@ <= line@.len() && replacement@.1 <= line@.len() ==> (result matches Ok(query)
                && query.line_view() == line@ && query.cursor_view() == cursor@ && query.replacement_view()
                == replacement@ && query.stem_view() == stem@ && query.quote_view() == quote
                && query.separators_view() == separators@),
    {
        line.index(cursor.get())?;
        line.slice(replacement)?;
        proof {
            use_type_invariant(&replacement);
            replacement.lemma_ordered();
        }
        Ok(CompletionQuery { line, cursor, replacement, stem, quote, separators })
    }

    /// The line observed when completion was requested.
    pub fn line(&self) -> (line: &Text)
        ensures
            line@ == self.line_view(),
    {
        &self.line
    }

    /// The cursor observed when completion was requested.
    pub fn cursor(&self) -> (cursor: TextIndex)
        ensures
            cursor@ == self.cursor_view(),
    {
        self.cursor
    }

    /// The source range replaced when candidates return.
    pub fn replacement(&self) -> (span: TextSpan)
        ensures
            span@ == self.replacement_view(),
    {
        self.replacement
    }

    /// The logical prefix a provider completes.
    pub fn stem(&self) -> (stem: &Text)
        ensures
            stem@ == self.stem_view(),
    {
        &self.stem
    }

    /// The quoting in force at the cursor.
    pub fn quote(&self) -> (quote: QuoteStyle)
        ensures
            quote == self.quote_view(),
    {
        self.quote
    }

    /// The word separators that unquoted text escapes.
    pub fn separators(&self) -> (separators: &Text)
        ensures
            separators@ == self.separators_view(),
    {
        &self.separators
    }
}

fn copy_option(t: &Option<Text>) -> (copy: Option<Text>)
    ensures
        text_opt(copy) == text_opt(*t),
{
    match t {
        Some(t) => Some(t.duplicate()),
        None => None,
    }
}

impl CompletionCandidate {
    /// A candidate shown as its insertion text.
    pub fn new(insertion: Text) -> (candidate: Self)
        ensures
            candidate@ == (CandidateModel { insertion: insertion@, display: None, suffix: None }),
    {
        CompletionCandidate { insertion, display: None, suffix: None }
    }

    /// Show the candidate under another spelling; a spelling equal to the
    /// insertion text is no separate spelling.
    pub fn with_display(self, display: Text) -> (candidate: Self)
        ensures
            candidate@ == (CandidateModel {
                display: if display@ == self@.insertion { None } else { Some(display@) },
                ..self@
            }),
    {
        let mut candidate = self;
        if display.same_as(&candidate.insertion) {
            candidate.display = None;
        } else {
            candidate.display = Some(display);
        }
        candidate
    }

    /// Append text after the value when it is the unique completion; an
    /// empty suffix is none.
    pub fn with_suffix(self, suffix: Text) -> (candidate: Self)
        ensures
            candidate@ == (CandidateModel {
                suffix: if suffix@.len() == 0 { None } else { Some(suffix@) },
                ..self@
            }),
    {
        let mut candidate = self;
        if suffix.is_empty() {
            candidate.suffix = None;
        } else {
            candidate.suffix = Some(suffix);
        }
        candidate
    }

    /// The value matched against the stem and inserted.
    pub fn insertion(&self) -> (insertion: &Text)
        ensures
            insertion@ == self@.insertion,
    {
        &self.insertion
    }

    /// The spelling shown in a candidate list.
    pub fn display(&self) -> (display: &Text)
        ensures
            display@ == (match self@.display {
                Some(d) => d,
                None => self@.insertion,
            }),
    {
        match &self.display {
            Some(d) => d,
            None => &self.insertion,
        }
    }

    /// The text appended after a unique match.
    pub fn suffix(&self) -> (suffix: Option<&Text>)
        ensures
            match suffix {
                Some(s) => self@.suffix == Some(s@),
                None => self@.suffix is None,
            },
    {
        match &self.suffix {
            Some(s) => Some(s),
            None => None,
        }
    }

    /// A copy of this candidate.
    pub fn duplicate(&self) -> (copy: Self)
        ensures
            copy@ == self@,
    {
        CompletionCandidate {
            insertion: self.insertion.duplicate(),
            display: copy_option(&self.display),
            suffix: copy_option(&self.suffix),
        }
    }
}

pub open spec fn candidates_view(v: Seq<CompletionCandidate>) -> Seq<CandidateModel> {
    Seq::new(v.len(), |i: int| v[i]@)
}

/// The candidates a provider returned, in its order.
#[derive(Debug)]
pub struct CompletionCandidates(Vec<CompletionCandidate>);

impl View for CompletionCandidates {
    type V = Seq<CandidateModel>;

    closed spec fn view(&self) -> Seq<CandidateModel> {
        candidates_view(self.0@)
    }
}

impl CompletionCandidates {
    /// Candidates in the given order.
    pub fn from_vec(candidates: Vec<CompletionCandidate>) -> (set: Self)
        ensures
            set@ == candidates_view(candidates@),
    {
        CompletionCandidates(candidates)
    }

    /// How many candidates there are.
    pub fn len(&self) -> (len: usize)
        ensures
            len == self@.len(),
    {
        self.0.len()
    }

    /// Whether there are none.
    pub fn is_empty(&self) -> (empty: bool)
        ensures
            empty == (self@.len() == 0),
    {
        self.0.len() == 0
    }

    /// The candidates in order.
    pub fn as_slice(&self) -> (candidates: &[CompletionCandidate])
        ensures
            candidates_view(candidates@) == self@,
    {
        self.0.as_slice()
    }
}

impl From<Vec<CompletionCandidate>> for CompletionCandidates {
    fn from(candidates: Vec<CompletionCandidate>) -> (set: Self) {
        CompletionCandidates(candidates)
    }
}

impl vstd::std_specs::convert::FromSpecImpl<Vec<CompletionCandidate>> for CompletionCandidates {
    open spec fn obeys_from_spec() -> bool {
        false
    }

    closed spec fn from_spec(v: Vec<CompletionCandidate>) -> Self {
        CompletionCandidates(v)
    }
}

/// The candidates whose insertion begins with `stem`, each insertion kept
/// once, at its first occurrence.
pub open spec fn matched(candidates: Seq<CandidateModel>, stem: Seq<TextUnit>) -> Seq<CandidateModel>
    decreases candidates.len(),
{
    if candidates.len() == 0 {
        Seq::empty()
    } else {
        let kept = matched(candidates.drop_last(), stem);
        let last = candidates.last();
        if seq_starts_with(last.insertion, stem) && !(exists|i: int|
            0 <= i < kept.len() && #[trigger] kept[i].insertion == last.insertion) {
            kept.push(last)
        } else {
            kept
        }
    }
}

fn seen_before(kept: &Vec<CompletionCandidate>, insertion: &Text) -> (seen: bool)
    ensures
        seen == exists|i: int| 0 <= i < kept@.len() && #[trigger] kept@[i]@.insertion == insertion@,
{
    let mut i: usize = 0;
    while i < kept.len()
        invariant
            i <= kept@.len(),
            forall|j: int| 0 <= j < i ==> #[trigger] kept@[j]@.insertion != insertion@,
        decreases kept@.len() - i,
    {
        if kept[i].insertion.same_as(insertion) {
            assert(kept@[i as int]@.insertion == insertion@);
            return true;
        }
        i = i + 1;
    }
    false
}

/// The candidates that begin with `stem`, without repeated insertions.
pub fn matching(candidates: &[CompletionCandidate], stem: &Text) -> (kept: Vec<CompletionCandidate>)
    ensures
        candidates_view(kept@) == matched(candidates_view(candidates@), stem@),
{
    let mut kept: Vec<CompletionCandidate> = Vec::new();
    let mut i: usize = 0;
    while i < candidates.len()
        invariant
            i <= candidates@.len(),
            candidates_view(kept@) == matched(candidates_view(candidates@.subrange(0, i as int)), stem@),
        decreases candidates@.len() - i,
    {
        let candidate = &candidates[i];
        let ghost prefix = candidates_view(candidates@.subrange(0, i as int));
        proof {
            assert(candidates_view(candidates@.subrange(0, i + 1)).drop_last() =~= prefix);
            assert(candidates_view(candidates@.subrange(0, i + 1)).last() == candidate@);
        }
        if crate::domain::text::units_start_with(candidate.insertion.as_units(), stem.as_units()) {
            let seen = seen_before(&kept, &candidate.insertion);
            proof {
                let kv = candidates_view(kept@);
                if seen {
                    let j = choose|j: int| 0 <= j < kept@.len() && #[trigger] kept@[j]@.insertion == candidate@.insertion;
                    assert(kv[j].insertion == candidate@.insertion);
                } else {
                    assert forall|j: int| 0 <= j < kv.len() implies #[trigger] kv[j].insertion != candidate@.insertion by {
                        assert(kept@[j]@.insertion != candidate@.insertion);
                    }
                }
            }
            if !seen {
                let ghost before = kept@;
                kept.push(candidate.duplicate());
                proof {
                    assert(candidates_view(kept@) =~= candidates_view(before).push(candidate@));
                }
            }
        }
        i = i + 1;
    }
    proof {
        assert(candidates@.subrange(0, candidates@.len() as int) =~= candidates@);
    }
    kept
}

/// The length of the longest common prefix of `a` and `b`.
pub open spec fn common_len(a: Seq<TextUnit>, b: Seq<TextUnit>) -> nat
    decreases a.len(),
{
    if a.len() == 0 || b.len() == 0 || a[0] != b[0] {
        0
    } else {
        1 + common_len(a.drop_first(), b.drop_first())
    }
}

/// How much of the first insertion the first `k` candidates share.
pub open spec fn shared_len(candidates: Seq<CandidateModel>, k: nat) -> nat
    decreases k,
{
    if k <= 1 {
        candidates[0].insertion.len()
    } else {
        let earlier = shared_len(candidates, (k - 1) as nat);
        common_len(candidates[0].insertion.subrange(0, earlier as int), candidates[k - 1].insertion)
    }
}

proof fn lemma_common_len(a: Seq<TextUnit>, b: Seq<TextUnit>, n: int)
    requires
        0 <= n <= a.len(),
        n <= b.len(),
        forall|j: int| 0 <= j < n ==> a[j] == b[j],
        n == a.len() || n == b.len() || a[n] != b[n],
    ensures
        common_len(a, b) == n,
    decreases a.len(),
{
    if a.len() == 0 || b.len() == 0 {
    } else if a[0] != b[0] {
    } else {
        assert forall|j: int| 0 <= j < n - 1 implies a.drop_first()[j] == b.drop_first()[j] by {
            assert(a[j + 1] == b[j + 1]);
        }
        lemma_common_len(a.drop_first(), b.drop_first(), n - 1);
    }
}

proof fn lemma_shared_len_bound(candidates: Seq<CandidateModel>, k: nat)
    requires
        candidates.len() >= 1,
    ensures
        shared_len(candidates, k) <= candidates[0].insertion.len(),
    decreases k,
{
    if k > 1 {
        lemma_shared_len_bound(candidates, (k - 1) as nat);
        lemma_common_len_bound(candidates[0].insertion.subrange(0, shared_len(candidates, (k - 1) as nat) as int), candidates[k - 1].insertion);
    }
}

proof fn lemma_common_len_bound(a: Seq<TextUnit>, b: Seq<TextUnit>)
    ensures
        common_len(a, b) <= a.len(),
        common_len(a, b) <= b.len(),
    decreases a.len(),
{
    if a.len() == 0 || b.len() == 0 || a[0] != b[0] {
    } else {
        lemma_common_len_bound(a.drop_first(), b.drop_first());
    }
}

/// The prefix that every candidate's insertion shares.
pub fn common_prefix(candidates: &[CompletionCandidate]) -> (prefix: Text)
    requires
        candidates@.len() >= 1,
    ensures
        prefix@ == candidates_view(candidates@)[0].insertion.subrange(
            0,
            shared_len(candidates_view(candidates@), candidates@.len() as nat) as int,
        ),
{
    let ghost cv = candidates_view(candidates@);
    let first = candidates[0].insertion.as_units();
    let mut length = first.len();
    let mut k: usize = 1;
    while k < candidates.len()
        invariant
            1 <= k <= candidates@.len(),
            cv == candidates_view(candidates@),
            first@ == cv[0].insertion,
            length == shared_len(cv, k as nat),
            length <= first@.len(),
        decreases candidates@.len() - k,
    {
        let other = candidates[k].insertion.as_units();
        let mut n: usize = 0;
        while n < length && n < other.len() && first[n] == other[n]
            invariant
                n <= length,
                n <= other@.len(),
                length <= first@.len(),
                forall|j: int| 0 <= j < n ==> first@[j] == other@[j],
            decreases length - n,
        {
            n = n + 1;
        }
        proof {
            let a = first@.subrange(0, length as int);
            assert(other@ == cv[k as int].insertion);
            assert forall|j: int| 0 <= j < n implies a[j] == other@[j] by {}
            lemma_common_len(a, other@, n as int);
        }
        length = n;
        k = k + 1;
    }
    Text::from_slice(vstd::slice::slice_subrange(first, 0, length))
}

/// Whether an unquoted unit needs a backslash before it.
pub open spec fn needs_escape(unit: TextUnit, separators: Seq<TextUnit>) -> bool {
    match unit {
        TextUnit::Scalar(c) => separators.contains(unit) || c == '\'' || c == '"' || c == '\\' || c == '`' || c == '@'
            || c == '$' || c == '>' || c == '<' || c == '=' || c == ';' || c == '|' || c == '&' || c == '{' || c
            == '}' || c == '(' || c == ')' || c == '?' || c == '#' || c == '*' || c == '[' || c == ']',
        _ => false,
    }
}

/// Whether an unquoted unit needs a backslash before it.
pub fn needs_unquoted_escape(unit: TextUnit, separators: &Text) -> (needed: bool)
    ensures
        needed == needs_escape(unit, separators@),
{
    let c = match unit {
        TextUnit::Scalar(c) => c,
        _ => {
            return false;
        },
    };
    let units = separators.as_units();
    let mut i: usize = 0;
    while i < units.len()
        invariant
            i <= units@.len(),
            units@ == separators@,
            unit == TextUnit::Scalar(c),
            forall|j: int| 0 <= j < i ==> units@[j] != unit,
        decreases units@.len() - i,
    {
        if units[i] == unit {
            proof {
                assert(separators@.contains(unit)) by {
                    assert(separators@[i as int] == unit);
                }
            }
            return true;
        }
        i = i + 1;
    }
    proof {
        assert(!separators@.contains(unit));
    }
    c == '\'' || c == '"' || c == '\\' || c == '`' || c == '@' || c == '$' || c == '>' || c == '<' || c == '='
        || c == ';' || c == '|' || c == '&' || c == '{' || c == '}' || c == '(' || c == ')' || c == '?' || c
        == '#' || c == '*' || c == '[' || c == ']'
}

/// How one unit of a value is written under a quoting.
pub open spec fn quoted_unit(unit: TextUnit, quote: QuoteStyle, separators: Seq<TextUnit>) -> Seq<TextUnit> {
    match quote {
        QuoteStyle::Unquoted => if unit == TextUnit::Scalar('\n') {
            seq![TextUnit::Scalar('\''), TextUnit::Scalar('\n'), TextUnit::Scalar('\'')]
        } else if needs_escape(unit, separators) {
            seq![TextUnit::Scalar('\\'), unit]
        } else {
            seq![unit]
        },
        QuoteStyle::Single => if unit == TextUnit::Scalar('\'') {
            seq![TextUnit::Scalar('\''), TextUnit::Scalar('\\'), TextUnit::Scalar('\''), TextUnit::Scalar('\'')]
        } else {
            seq![unit]
        },
        QuoteStyle::Double => if unit == TextUnit::Scalar('"') || unit == TextUnit::Scalar('\\') {
            seq![TextUnit::Scalar('\\'), unit]
        } else {
            seq![unit]
        },
    }
}

/// The units of a value written one by one under a quoting.
pub open spec fn quoted_units(value: Seq<TextUnit>, quote: QuoteStyle, separators: Seq<TextUnit>) -> Seq<TextUnit>
    decreases value.len(),
{
    if value.len() == 0 {
        Seq::empty()
    } else {
        quoted_units(value.drop_last(), quote, separators) + quoted_unit(value.last(), quote, separators)
    }
}

/// The opening or closing quote character of a quoting, if it has one.
pub open spec fn quote_mark(quote: QuoteStyle) -> Seq<TextUnit> {
    match quote {
        QuoteStyle::Unquoted => Seq::empty(),
        QuoteStyle::Single => seq![TextUnit::Scalar('\'')],
        QuoteStyle::Double => seq![TextUnit::Scalar('"')],
    }
}

/// A value written so that the quoting in force reads it back unchanged,
/// with the quote closed when `close` holds.
pub open spec fn encoded(value: Seq<TextUnit>, quote: QuoteStyle, separators: Seq<TextUnit>, close: bool) -> Seq<TextUnit> {
    quote_mark(quote) + quoted_units(value, quote, separators) + if close { quote_mark(quote) } else { Seq::empty() }
}

/// Write `value` so that the quoting in force reads it back unchanged.
pub fn encode(value: &Text, quote: QuoteStyle, separators: &Text, close: bool) -> (result: Text)
    ensures
        result@ == encoded(value@, quote, separators@, close),
{
    let mut out = Text::new();
    match quote {
        QuoteStyle::Unquoted => {},
        QuoteStyle::Single => out.push(TextUnit::scalar('\'')),
        QuoteStyle::Double => out.push(TextUnit::scalar('"')),
    }
    let ghost opening = out@;
    proof {
        assert(opening =~= quote_mark(quote));
    }
    let units = value.as_units();
    let mut i: usize = 0;
    while i < units.len()
        invariant
            i <= units@.len(),
            units@ == value@,
            out@ == opening + quoted_units(value@.subrange(0, i as int), quote, separators@),
        decreases units@.len() - i,
    {
        let unit = units[i];
        let ghost before = out@;
        proof {
            assert(value@.subrange(0, i + 1).drop_last() =~= value@.subrange(0, i as int));
        }
        match quote {
            QuoteStyle::Unquoted => {
                if unit == TextUnit::scalar('\n') {
                    out.push(TextUnit::scalar('\''));
                    out.push(TextUnit::scalar('\n'));
                    out.push(TextUnit::scalar('\''));
                } else {
                    if needs_unquoted_escape(unit, separators) {
                        out.push(TextUnit::scalar('\\'));
                    }
                    out.push(unit);
                }
            },
            QuoteStyle::Single => {
                if unit == TextUnit::scalar('\'') {
                    out.push(TextUnit::scalar('\''));
                    out.push(TextUnit::scalar('\\'));
                    out.push(TextUnit::scalar('\''));
                    out.push(TextUnit::scalar('\''));
                } else {
                    out.push(unit);
                }
            },
            QuoteStyle::Double => {
                if unit == TextUnit::scalar('"') || unit == TextUnit::scalar('\\') {
                    out.push(TextUnit::scalar('\\'));
                }
                out.push(unit);
            },
        }
        proof {
            assert(out@ =~= before + quoted_unit(value@[i as int], quote, separators@));
            assert(quoted_units(value@.subrange(0, i + 1), quote, separators@) =~= quoted_units(
                value@.subrange(0, i as int),
                quote,
                separators@,
            ) + quoted_unit(value@[i as int], quote, separators@));
        }
        i = i + 1;
    }
    proof {
        assert(value@.subrange(0, value@.len() as int) =~= value@);
    }
    let ghost body = out@;
    if close {
        match quote {
            QuoteStyle::Unquoted => {},
            QuoteStyle::Single => out.push(TextUnit::scalar('\'')),
            QuoteStyle::Double => out.push(TextUnit::scalar('"')),
        }
    }
    proof {
        assert(out@ =~= encoded(value@, quote, separators@, close));
    }
    out
}

/// The characters that the shell gives a meaning of their own outside
/// quotes: quotes, the escape, expansion, redirection, assignment, command
/// separators, grouping and globbing.
pub open spec fn shell_metacharacters() -> Set<char> {
    set![
        '\'', '"', '\\', '`', '@', '$', '>', '<', '=', ';', '|', '&', '{', '}', '(', ')', '?', '#', '*', '[',
        ']',
    ]
}

/// An unquoted completion writes a backslash before every shell
/// metacharacter and before every word separator other than the newline
/// (which it writes inside single quotes): the text written for the first
/// `i + 1` units of the value is the text written for the first `i`
/// followed by a backslash and unit `i`.
pub proof fn law_unquoted_escapes_metacharacters(value: Seq<TextUnit>, separators: Seq<TextUnit>, i: int, c: char)
    requires
        0 <= i < value.len(),
        value[i] == TextUnit::Scalar(c),
        c != '\n',
        shell_metacharacters().contains(c) || separators.contains(value[i]),
    ensures
        quoted_unit(value[i], QuoteStyle::Unquoted, separators) == seq![TextUnit::Scalar('\\'), value[i]],
        quoted_units(value.take(i + 1), QuoteStyle::Unquoted, separators) == quoted_units(
            value.take(i),
            QuoteStyle::Unquoted,
            separators,
        ) + seq![TextUnit::Scalar('\\'), value[i]],
{
    assert(needs_escape(value[i], separators));
    assert(value.take(i + 1).drop_last() =~= value.take(i));
    assert(value.take(i + 1).last() == value[i]);
}

/// An unquoted completion writes a newline as a quoted newline, and every
/// other unit that is neither a shell metacharacter nor a word separator
/// as itself, with nothing before it.
pub proof fn law_unquoted_keeps_plain_units(unit: TextUnit, separators: Seq<TextUnit>)
    ensures
        unit == TextUnit::Scalar('\n') ==> quoted_unit(unit, QuoteStyle::Unquoted, separators) == seq![
            TextUnit::Scalar('\''),
            TextUnit::Scalar('\n'),
            TextUnit::Scalar('\''),
        ],
        unit != TextUnit::Scalar('\n') && !separators.contains(unit) && !(unit matches TextUnit::Scalar(c)
            && shell_metacharacters().contains(c)) ==> quoted_unit(unit, QuoteStyle::Unquoted, separators)
            == seq![unit],
{
}

/// The atomic replacement a completion made.
#[derive(Debug)]
pub struct CompletionEdit {
    span: TextSpan,
    replacement: Text,
}

impl CompletionEdit {
    pub(crate) fn new(span: TextSpan, replacement: Text) -> (edit: Self)
        ensures
            edit.span_view() == span@,
            edit.replacement_view() == replacement@,
    {
        CompletionEdit { span, replacement }
    }

    pub closed spec fn span_view(&self) -> (nat, nat) {
        self.span@
    }

    pub closed spec fn replacement_view(&self) -> Seq<TextUnit> {
        self.replacement@
    }

    /// The range replaced in the queried line.
    pub fn span(&self) -> (span: TextSpan)
        ensures
            span@ == self.span_view(),
    {
        self.span
    }

    /// The text inserted in its place.
    pub fn replacement(&self) -> (replacement: &Text)
        ensures
            replacement@ == self.replacement_view(),
    {
        &self.replacement
    }
}

/// What applying a completion response did.
#[derive(Debug)]
pub enum CompletionOutcome {
    /// No candidate began with the stem.
    NoMatch,
    /// One distinct candidate was inserted, with its suffix.
    Unique { edit: CompletionEdit, candidate: CompletionCandidate },
    /// Several candidates remain; a longer common prefix may have been
    /// inserted.
    Ambiguous { edit: Option<CompletionEdit>, candidates: CompletionCandidates },
}

/// The text a completion inserts, when it inserts any: the unique match
/// written under the quoting and closed, with its suffix; or, for several
/// matches, their common prefix left open when it is longer than the stem.
pub open spec fn completed_text(
    kept: Seq<CandidateModel>,
    stem: Seq<TextUnit>,
    quote: QuoteStyle,
    separators: Seq<TextUnit>,
) -> Option<Seq<TextUnit>> {
    if kept.len() == 0 {
        None
    } else if kept.len() == 1 {
        Some(encoded(kept[0].insertion, quote, separators, true) + match kept[0].suffix {
            Some(s) => s,
            None => Seq::empty(),
        })
    } else {
        let prefix = kept[0].insertion.subrange(0, shared_len(kept, kept.len()) as int);
        if prefix.len() > stem.len() {
            Some(encoded(prefix, quote, separators, false))
        } else {
            None
        }
    }
}

/// Whether an outcome reports the matches `kept` and the edit of `text`
/// over `span`.
pub open spec fn outcome_agrees(
    outcome: CompletionOutcome,
    kept: Seq<CandidateModel>,
    text: Option<Seq<TextUnit>>,
    span: (nat, nat),
) -> bool {
    match outcome {
        CompletionOutcome::NoMatch => kept.len() == 0,
        CompletionOutcome::Unique { edit, candidate } => kept.len() == 1 && candidate@ == kept[0] && text == Some(
            edit.replacement_view(),
        ) && edit.span_view() == span,
        CompletionOutcome::Ambiguous { edit, candidates } => kept.len() >= 2 && candidates@ == kept && match edit {
            Some(e) => text == Some(e.replacement_view()) && e.span_view() == span,
            None => text is None,
        },
    }
}

proof fn lemma_common_len_prefix(a: Seq<TextUnit>, b: Seq<TextUnit>)
    ensures
        common_len(a, b) <= a.len(),
        common_len(a, b) <= b.len(),
        a.subrange(0, common_len(a, b) as int) == b.subrange(0, common_len(a, b) as int),
    decreases a.len(),
{
    if a.len() == 0 || b.len() == 0 || a[0] != b[0] {
        assert(a.subrange(0, 0) =~= b.subrange(0, 0));
    } else {
        lemma_common_len_prefix(a.drop_first(), b.drop_first());
        let n = common_len(a, b) as int;
        assert(a.subrange(0, n) =~= seq![a[0]] + a.drop_first().subrange(0, n - 1));
        assert(b.subrange(0, n) =~= seq![b[0]] + b.drop_first().subrange(0, n - 1));
    }
}

/// The common prefix of the first `k` matches begins every one of them.
pub proof fn law_common_prefix_is_shared(candidates: Seq<CandidateModel>, k: nat)
    requires
        1 <= k <= candidates.len(),
    ensures
        shared_len(candidates, k) <= candidates[0].insertion.len(),
        forall|i: int| 0 <= i < k ==> seq_starts_with(
            #[trigger] candidates[i].insertion,
            candidates[0].insertion.subrange(0, shared_len(candidates, k) as int),
        ),
    decreases k,
{
    let first = candidates[0].insertion;
    if k == 1 {
        assert(first.subrange(0, first.len() as int) =~= first);
    } else {
        law_common_prefix_is_shared(candidates, (k - 1) as nat);
        let earlier = shared_len(candidates, (k - 1) as nat);
        let a = first.subrange(0, earlier as int);
        let b = candidates[k - 1].insertion;
        lemma_common_len_prefix(a, b);
        let n = shared_len(candidates, k);
        assert forall|i: int| 0 <= i < k implies seq_starts_with(#[trigger] candidates[i].insertion, first.subrange(0, n as int)) by {
            if i < k - 1 {
                assert(seq_starts_with(candidates[i].insertion, a));
                assert(candidates[i].insertion.subrange(0, n as int) =~= a.subrange(0, n as int));
                assert(first.subrange(0, n as int) =~= a.subrange(0, n as int));
            } else {
                assert(first.subrange(0, n as int) =~= a.subrange(0, n as int));
                assert(b.subrange(0, n as int) == a.subrange(0, n as int));
            }
        }
    }
}

} // verus!
