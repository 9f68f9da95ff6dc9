//! The run's diagnostics: an append-only log of one-line messages, and the
//! verdict it gives at the end of the run.
use vstd::prelude::*;
use crate::text::char_at;

verus! {

/// The message as one line: line breaks become spaces.
pub open spec fn one_line(s: Seq<char>) -> Seq<char> {
    s.map_values(|c: char| if c == '\n' || c == '\r' { ' ' } else { c })
}

/// The report text: each message followed by a line break, in order.
pub open spec fn report_text(msgs: Seq<Seq<char>>) -> Seq<char>
    decreases msgs.len(),
{
    if msgs.len() == 0 {
        Seq::empty()
    } else {
        msgs[0] + seq!['\n'] + report_text(msgs.drop_first())
    }
}

/// The lines of a text, each without its line break; a last line without a
/// break counts too.
pub open spec fn split_lines(s: Seq<char>) -> Seq<Seq<char>>
    decreases s.len(),
{
    if s.len() == 0 {
        Seq::empty()
    } else {
        let rest = split_lines(s.drop_first());
        if s[0] == '\n' {
            seq![Seq::empty()] + rest
        } else if rest.len() == 0 {
            seq![seq![s[0]]]
        } else {
            rest.update(0, seq![s[0]] + rest[0])
        }
    }
}

/// Whether a text holds no line break.
pub open spec fn is_one_line(s: Seq<char>) -> bool {
    forall|i: int| 0 <= i < s.len() ==> s[i] != '\n'
}

/// What the run ends with: a clean run removes any stale report; a run with
/// diagnostics writes the report and fails.
#[derive(Clone, Debug, PartialEq, Eq)]
pub enum Outcome {
    Clean,
    Failed(String),
}

/// The append-only log of a run's diagnostics.
pub struct ErrorLog {
    messages: Vec<String>,
}

impl View for ErrorLog {
    type V = Seq<Seq<char>>;

    closed spec fn view(&self) -> Seq<Seq<char>> {
        self.messages.deep_view()
    }
}

proof fn lemma_split_one(m: Seq<char>, r: Seq<char>)
    requires
        is_one_line(m),
    ensures
        split_lines(m + seq!['\n'] + r) == seq![m] + split_lines(r),
    decreases m.len(),
{
    let s = m + seq!['\n'] + r;
    if m.len() == 0 {
        assert(s.drop_first() =~= r);
        assert(m =~= Seq::<char>::empty());
    } else {
        let t = m.drop_first();
        assert(s.drop_first() =~= t + seq!['\n'] + r);
        lemma_split_one(t, r);
        assert(m =~= seq![m[0]] + t);
        assert(split_lines(s) =~= seq![m] + split_lines(r));
    }
}

proof fn lemma_report_concat(a: Seq<Seq<char>>, b: Seq<Seq<char>>)
    ensures
        report_text(a + b) == report_text(a) + report_text(b),
    decreases a.len(),
{
    if a.len() == 0 {
        assert(a + b =~= b);
    } else {
        assert((a + b).drop_first() =~= a.drop_first() + b);
        lemma_report_concat(a.drop_first(), b);
    }
}

/// The report holds exactly one line per message, in the order recorded,
/// when no message holds a line break.
pub proof fn lemma_report_lines(msgs: Seq<Seq<char>>)
    requires
        forall|i: int| 0 <= i < msgs.len() ==> is_one_line(#[trigger] msgs[i]),
    ensures
        split_lines(report_text(msgs)) == msgs,
    decreases msgs.len(),
{
    if msgs.len() > 0 {
        let rest = msgs.drop_first();
        assert forall|i: int| 0 <= i < rest.len() implies is_one_line(#[trigger] rest[i]) by {
            assert(rest[i] == msgs[i + 1]);
        }
        lemma_report_lines(rest);
        assert(is_one_line(msgs[0]));
        lemma_split_one(msgs[0], report_text(rest));
        assert(msgs =~= seq![msgs[0]] + rest);
    }
}

/// A log's report holds exactly one line per recorded diagnostic, in order.
pub proof fn lemma_log_report_lines(log: &ErrorLog)
    requires
        log.wf(),
    ensures
        split_lines(report_text(log@)) == log@,
{
    lemma_report_lines(log@);
}

/// Turns line breaks into spaces.
pub fn to_one_line(s: &str) -> (r: String)
    ensures
        r@ == one_line(s@),
{
    let n = s.unicode_len();
    let mut out = String::new();
    let mut i: usize = 0;
    while i < n
        invariant
            n == s@.len(),
            i <= n,
            out@ == one_line(s@.subrange(0, i as int)),
        decreases n - i,
    {
        let c = s.get_char(i);
        if c == '\n' || c == '\r' {
            proof {
                reveal_strlit(" ");
                assert(" "@ =~= seq![' ']);
            }
            out.append(" ");
        } else {
            out.append(char_at(s, i));
        }
        assert(s@.subrange(0, i + 1) =~= s@.subrange(0, i as int).push(c));
        assert(one_line(s@.subrange(0, i + 1)) =~= one_line(s@.subrange(0, i as int)).push(
            if c == '\n' || c == '\r' { ' ' } else { c },
        ));
        i = i + 1;
    }
    assert(s@.subrange(0, n as int) =~= s@);
    out
}

impl ErrorLog {
    /// Every message is one line.
    pub closed spec fn wf(&self) -> bool {
        forall|i: int| 0 <= i < self@.len() ==> is_one_line(#[trigger] self@[i])
    }

    /// An empty log.
    pub fn new() -> (r: ErrorLog)
        ensures
            r.wf(),
            r@ == Seq::<Seq<char>>::empty(),
    {
        let r = ErrorLog { messages: Vec::new() };
        assert(r@ =~= Seq::<Seq<char>>::empty());
        r
    }

    /// Appends a diagnostic, as one line.
    pub fn record(&mut self, message: &str)
        requires
            old(self).wf(),
        ensures
            final(self).wf(),
            final(self)@ == old(self)@.push(one_line(message@)),
    {
        let line = to_one_line(message);
        let ghost before = self@;
        let ghost lv = line@;
        self.messages.push(line);
        assert(self@ =~= before.push(lv));
        assert(is_one_line(lv));
    }

    /// Appends a failure: the step's description followed by the error text.
    pub fn record_failure(&mut self, failure: &str, error: &str)
        requires
            old(self).wf(),
        ensures
            final(self).wf(),
            final(self)@ == old(self)@.push(one_line(failure@ + error@)),
    {
        let mut m = String::from_str(failure);
        m.append(error);
        self.record(m.as_str());
    }

    /// The number of diagnostics recorded.
    pub fn len(&self) -> (r: usize)
        ensures
            r == self@.len(),
    {
        self.messages.len()
    }

    /// The diagnostics, in the order recorded.
    pub fn messages(&self) -> (r: Vec<String>)
        ensures
            r.deep_view() == self@,
    {
        let r = self.messages.clone();
        assert(r.deep_view() =~= self@);
        r
    }

    /// The report: one line per diagnostic, in the order recorded.
    pub fn report(&self) -> (r: String)
        ensures
            r@ == report_text(self@),
    {
        let mut out = String::new();
        let mut i: usize = 0;
        proof {
            reveal_strlit("\n");
            assert(self@.subrange(0, 0) =~= Seq::<Seq<char>>::empty());
        }
        while i < self.messages.len()
            invariant
                i <= self@.len(),
                self@.len() == self.messages@.len(),
                "\n"@ == seq!['\n'],
                out@ == report_text(self@.subrange(0, i as int)),
            decreases self@.len() - i,
        {
            let ghost before = self@.subrange(0, i as int);
            out.append(self.messages[i].as_str());
            out.append("\n");
            proof {
                let m = self@[i as int];
                assert(self.messages@[i as int]@ == m);
                assert(self@.subrange(0, i + 1) =~= before + seq![m]);
                lemma_report_concat(before, seq![m]);
                assert(seq![m].drop_first() =~= Seq::<Seq<char>>::empty());
                assert(report_text(seq![m].drop_first()) =~= Seq::<char>::empty());
                assert(report_text(seq![m]) =~= m + seq!['\n']);
                assert(out@ =~= report_text(before) + report_text(seq![m]));
            }
            i = i + 1;
        }
        assert(self@.subrange(0, i as int) =~= self@);
        out
    }

    /// The verdict of the run: clean exactly when nothing was recorded;
    /// otherwise the report to persist.
    pub fn finish(&self) -> (r: Outcome)
        ensures
            r is Clean <==> self@.len() == 0,
            r matches Outcome::Failed(t) ==> t@ == report_text(self@),
    {
        if self.messages.len() == 0 {
            Outcome::Clean
        } else {
            Outcome::Failed(self.report())
        }
    }
}

} // verus!
