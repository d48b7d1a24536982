use vstd::prelude::*;
use crate::stamp::{Stamp, stamp_le, stamp_less};
use crate::logline::{
    LogLine, LineView, line_lt, line_of, compare_lines, create_logline, read_logline, lemma_line_lt_trans,
    lemma_line_lt_total,
};

verus! {

/// Every line comes strictly before the next ones: no line twice.
pub open spec fn sorted(s: Seq<LineView>) -> bool {
    forall|i: int, j: int| 0 <= i < j < s.len() ==> line_lt(#[trigger] s[i], #[trigger] s[j])
}

/// Whether a line passes the boot-time filter: with a boot time, only lines
/// stamped at or after it.
pub open spec fn kept(boot: Option<Stamp>, v: LineView) -> bool {
    match boot {
        Some(t) => stamp_le(t, v.0),
        None => true,
    }
}

/// Whether one of the first `n` texts reads as the line `v` and passes the filter.
pub open spec fn gathered(lines: Seq<String>, n: int, boot: Option<Stamp>, v: LineView) -> bool {
    exists|j: int| 0 <= j < n && #[trigger] line_of(lines[j]@) == Some(v) && kept(boot, v)
}

/// Whether each of the first `n` texts reads as a log line.
pub open spec fn all_read(lines: Seq<String>, n: int) -> bool {
    forall|j: int| 0 <= j < n ==> (#[trigger] line_of(lines[j]@)) is Some
}

/// Two sorted sequences of lines that hold the same lines are equal: the
/// contents of a set fix the order in which it lists them.
pub proof fn lemma_sorted_unique(a: Seq<LineView>, b: Seq<LineView>)
    requires
        sorted(a),
        sorted(b),
        forall|v: LineView| a.contains(v) <==> b.contains(v),
    ensures
        a == b,
    decreases a.len(),
{
    if a.len() == 0 {
        if b.len() > 0 {
            assert(b.contains(b[0]));
        }
        assert(a =~= b);
    } else {
        assert(a.contains(a[0]));
        assert(b.len() > 0);
        assert(b.contains(b[0]));
        let k = choose|k: int| 0 <= k < b.len() && b[k] == a[0];
        let j = choose|j: int| 0 <= j < a.len() && a[j] == b[0];
        if k > 0 && j > 0 {
            lemma_line_lt_total(a[0], b[0]);
        }
        assert(a[0] == b[0]) by {
            lemma_line_lt_total(a[0], b[0]);
        }
        let a1 = a.drop_first();
        let b1 = b.drop_first();
        assert forall|v: LineView| a1.contains(v) <==> b1.contains(v) by {
            lemma_line_lt_total(a[0], a[0]);
            if a1.contains(v) {
                let i = choose|i: int| 0 <= i < a1.len() && a1[i] == v;
                assert(a[i + 1] == v);
                assert(line_lt(a[0], v));
                assert(b.contains(v));
                let m = choose|m: int| 0 <= m < b.len() && b[m] == v;
                assert(m != 0);
                assert(b1[m - 1] == v);
            }
            if b1.contains(v) {
                let i = choose|i: int| 0 <= i < b1.len() && b1[i] == v;
                assert(b[i + 1] == v);
                assert(line_lt(b[0], v));
                assert(a.contains(v));
                let m = choose|m: int| 0 <= m < a.len() && a[m] == v;
                assert(m != 0);
                assert(a1[m - 1] == v);
            }
        }
        lemma_sorted_unique(a1, b1);
        assert(a =~= seq![a[0]] + a1);
        assert(b =~= seq![b[0]] + b1);
    }
}

/// A time-ordered set of log lines without duplicates.
pub struct LogSet {
    lines: Vec<LogLine>,
}

/// Where a text that is no log line was met: the file and the line in it.
#[derive(Clone, Copy, Debug, PartialEq, Eq, Structural)]
pub struct BadLine {
    pub file: usize,
    pub line: usize,
}

impl View for LogSet {
    type V = Seq<LineView>;

    closed spec fn view(&self) -> Seq<LineView> {
        self.lines@.map_values(|l: LogLine| l@)
    }
}

impl LogSet {
    pub open spec fn wf(&self) -> bool {
        sorted(self@)
    }

    /// An empty set.
    pub fn new() -> (r: LogSet)
        ensures
            r.wf(),
            r@ == Seq::<LineView>::empty(),
    {
        let r = LogSet { lines: Vec::new() };
        assert(r@ =~= Seq::<LineView>::empty());
        r
    }

    /// The number of lines held.
    pub fn len(&self) -> (r: usize)
        ensures
            r == self@.len(),
    {
        self.lines.len()
    }

    /// The lines held, in order.
    pub fn lines(&self) -> (r: &Vec<LogLine>)
        ensures
            r@.map_values(|l: LogLine| l@) == self@,
    {
        &self.lines
    }

    /// Adds a line unless an equal one is held; says whether it was added.
    pub fn insert(&mut self, line: LogLine) -> (r: bool)
        requires
            old(self).wf(),
        ensures
            final(self).wf(),
            r == !old(self)@.contains(line@),
            forall|v: LineView| final(self)@.contains(v) <==> (old(self)@.contains(v) || v == line@),
    {
        let ghost s = self@;
        let ghost x = line@;
        let mut lo: usize = 0;
        let mut hi: usize = self.lines.len();
        while lo < hi
            invariant
                self@ == s,
                sorted(s),
                lo <= hi <= s.len(),
                x == line@,
                forall|i: int| 0 <= i < lo ==> line_lt(#[trigger] s[i], x),
                forall|i: int| hi <= i < s.len() ==> !line_lt(#[trigger] s[i], x),
            decreases hi - lo,
        {
            let mid = lo + (hi - lo) / 2;
            let c = compare_lines(&self.lines[mid], &line);
            assert(self.lines@[mid as int]@ == s[mid as int]);
            if c < 0 {
                assert forall|i: int| 0 <= i < mid + 1 implies line_lt(#[trigger] s[i], x) by {
                    if i < mid {
                        lemma_line_lt_trans(s[i], s[mid as int], x);
                    }
                }
                lo = mid + 1;
            } else {
                assert forall|i: int| mid <= i < s.len() implies !line_lt(#[trigger] s[i], x) by {
                    if i > mid && line_lt(s[i], x) {
                        lemma_line_lt_trans(s[mid as int], s[i], x);
                    }
                    lemma_line_lt_total(s[mid as int], x);
                }
                hi = mid;
            }
        }
        if lo < self.lines.len() {
            let c = compare_lines(&self.lines[lo], &line);
            assert(self.lines@[lo as int]@ == s[lo as int]);
            if c == 0 {
                assert(s[lo as int] == x);
                assert(s.contains(x));
                return false;
            }
        }
        proof {
            assert forall|i: int| lo <= i < s.len() implies line_lt(x, #[trigger] s[i]) by {
                lemma_line_lt_total(s[lo as int], x);
                if i > lo {
                    lemma_line_lt_trans(x, s[lo as int], s[i]);
                }
            }
            assert forall|i: int| 0 <= i < s.len() implies s[i] != x by {
                lemma_line_lt_total(x, x);
            }
        }
        self.lines.insert(lo, line);
        proof {
            let t = s.insert(lo as int, x);
            assert(self@ =~= t);
            assert forall|i: int, j: int| 0 <= i < j < t.len() implies line_lt(
                #[trigger] t[i],
                #[trigger] t[j],
            ) by {
                if i < lo && j > lo {
                    lemma_line_lt_trans(s[i], x, s[j - 1]);
                }
            }
            assert forall|v: LineView| t.contains(v) <==> (s.contains(v) || v == x) by {
                if s.contains(v) {
                    let i = choose|i: int| 0 <= i < s.len() && s[i] == v;
                    if i < lo {
                        assert(t[i] == v);
                    } else {
                        assert(t[i + 1] == v);
                    }
                }
                if t.contains(v) {
                    let i = choose|i: int| 0 <= i < t.len() && t[i] == v;
                    if i < lo {
                        assert(s[i] == v);
                    } else if i > lo {
                        assert(s[i - 1] == v);
                    }
                }
                assert(t[lo as int] == x);
            }
        }
        true
    }
    /// The output lines: each date text and content, joined by a space.
    pub fn render(&self) -> (r: Vec<String>)
        ensures
            r.len() == self@.len(),
            forall|i: int|
                0 <= i < r.len() ==> #[trigger] r[i]@ == self@[i].1 + seq![' '] + self@[i].2,
    {
        let mut out: Vec<String> = Vec::new();
        let mut i: usize = 0;
        while i < self.lines.len()
            invariant
                i <= self.lines.len(),
                out.len() == i,
                forall|k: int|
                    0 <= k < i ==> #[trigger] out[k]@ == self@[k].1 + seq![' '] + self@[k].2,
            decreases self.lines.len() - i,
        {
            let l = &self.lines[i];
            let mut text = l.date_str.clone();
            text.append(" ");
            proof {
                reveal_strlit(" ");
            }
            text.append(l.content.as_str());
            assert(self@[i as int] == l@);
            assert(text@ =~= self@[i as int].1 + seq![' '] + self@[i as int].2);
            out.push(text);
            i = i + 1;
        }
        out
    }
}

/// Reads the lines of one file, each a log line, into `loglines`, keeping
/// those that pass the boot-time filter.
pub fn extract_loglines(lines: &Vec<String>, loglines: &mut LogSet, boottime: Option<Stamp>)
    requires
        old(loglines).wf(),
        all_read(lines@, lines@.len() as int),
    ensures
        final(loglines).wf(),
        forall|v: LineView|
            final(loglines)@.contains(v) <==> (old(loglines)@.contains(v) || gathered(
                lines@,
                lines@.len() as int,
                boottime,
                v,
            )),
{
    let ghost s0 = loglines@;
    let mut i: usize = 0;
    while i < lines.len()
        invariant
            i <= lines.len(),
            loglines.wf(),
            s0 == old(loglines)@,
            all_read(lines@, lines@.len() as int),
            forall|v: LineView|
                #[trigger] loglines@.contains(v) <==> (s0.contains(v) || gathered(
                    lines@,
                    i as int,
                    boottime,
                    v,
                )),
        decreases lines.len() - i,
    {
        let ghost prev = loglines@;
        let ghost n = i as int;
        assert(line_of(lines@[n]@) is Some);
        let l = create_logline(lines[i].as_str());
        let ghost x = l@;
        let keep = match boottime {
            Some(t) => !stamp_less(l.date, t),
            None => true,
        };
        if keep {
            loglines.insert(l);
        }
        i = i + 1;
        proof {
            assert(keep == kept(boottime, x));
            assert(line_of(lines@[n]@) == Some(x));
            assert forall|v: LineView|
                loglines@.contains(v) <==> (s0.contains(v) || gathered(
                    lines@,
                    i as int,
                    boottime,
                    v,
                )) by {
                if gathered(lines@, i as int, boottime, v) && !gathered(lines@, n, boottime, v) {
                    let j = choose|j: int|
                        0 <= j < i && #[trigger] line_of(lines@[j]@) == Some(v) && kept(
                            boottime,
                            v,
                        );
                    assert(j == n);
                }
                if gathered(lines@, n, boottime, v) {
                    let j = choose|j: int|
                        0 <= j < n && #[trigger] line_of(lines@[j]@) == Some(v) && kept(
                            boottime,
                            v,
                        );
                    assert(gathered(lines@, i as int, boottime, v));
                }
                if v == x && keep {
                    assert(gathered(lines@, i as int, boottime, v));
                }
                assert(prev.contains(v) <==> (s0.contains(v) || gathered(lines@, n, boottime, v)));
            }
        }
    }
}

/// The index of the first text that is no log line, if any.
pub fn find_bad_line(lines: &Vec<String>) -> (r: Option<usize>)
    ensures
        r is None <==> all_read(lines@, lines@.len() as int),
        r matches Some(k) ==> k < lines@.len() && line_of(lines@[k as int]@) is None && all_read(
            lines@,
            k as int,
        ),
{
    let mut i: usize = 0;
    while i < lines.len()
        invariant
            i <= lines@.len(),
            all_read(lines@, i as int),
        decreases lines@.len() - i,
    {
        if read_logline(lines[i].as_str()).is_none() {
            return Some(i);
        }
        i = i + 1;
    }
    None
}

/// Whether each text of each file reads as a log line.
pub open spec fn all_files_read(files: Seq<Vec<String>>, n: int) -> bool {
    forall|f: int| 0 <= f < n ==> all_read(#[trigger] files[f]@, files[f]@.len() as int)
}

/// Whether some text of the first `n` files reads as `v` and passes the filter.
pub open spec fn gathered_files(files: Seq<Vec<String>>, n: int, boot: Option<Stamp>, v: LineView) -> bool {
    exists|f: int| 0 <= f < n && gathered(#[trigger] files[f]@, files[f]@.len() as int, boot, v)
}

/// Whether one of the files holds the text.
pub open spec fn holds_text(files: Seq<Vec<String>>, t: String) -> bool {
    exists|f: int, j: int| 0 <= f < files.len() && 0 <= j < files[f]@.len() && #[trigger] files[f]@[j] == t
}

/// Merging files that hold the same texts, in whatever order and however
/// often each, lists the same lines in the same order.
pub proof fn lemma_merge_order_free(
    f1: Seq<Vec<String>>,
    f2: Seq<Vec<String>>,
    boot: Option<Stamp>,
    s1: Seq<LineView>,
    s2: Seq<LineView>,
)
    requires
        forall|t: String| holds_text(f1, t) <==> holds_text(f2, t),
        sorted(s1),
        sorted(s2),
        forall|v: LineView| s1.contains(v) <==> gathered_files(f1, f1.len() as int, boot, v),
        forall|v: LineView| s2.contains(v) <==> gathered_files(f2, f2.len() as int, boot, v),
    ensures
        s1 == s2,
{
    assert forall|v: LineView| s1.contains(v) <==> s2.contains(v) by {
        if gathered_files(f1, f1.len() as int, boot, v) {
            lemma_gathered_moves(f1, f2, boot, v);
        }
        if gathered_files(f2, f2.len() as int, boot, v) {
            lemma_gathered_moves(f2, f1, boot, v);
        }
    }
    lemma_sorted_unique(s1, s2);
}

/// A line gathered from files whose texts all stand in other files is
/// gathered from those too.
proof fn lemma_gathered_moves(f1: Seq<Vec<String>>, f2: Seq<Vec<String>>, boot: Option<Stamp>, v: LineView)
    requires
        forall|t: String| holds_text(f1, t) ==> holds_text(f2, t),
        gathered_files(f1, f1.len() as int, boot, v),
    ensures
        gathered_files(f2, f2.len() as int, boot, v),
{
    let f = choose|f: int| 0 <= f < f1.len() && gathered(#[trigger] f1[f]@, f1[f]@.len() as int, boot, v);
    let j = choose|j: int|
        0 <= j < f1[f]@.len() && #[trigger] line_of(f1[f]@[j]@) == Some(v) && kept(boot, v);
    let t = f1[f]@[j];
    assert(holds_text(f1, t));
    assert(holds_text(f2, t));
    let (g, k) = choose|g: int, k: int| 0 <= g < f2.len() && 0 <= k < f2[g]@.len() && #[trigger] f2[g]@[k] == t;
    assert(line_of(f2[g]@[k]@) == Some(v));
    assert(gathered(f2[g]@, f2[g]@.len() as int, boot, v));
}

/// Merges the lines of several files into one time-ordered set without
/// duplicates, keeping those that pass the boot-time filter. Fails at the
/// first text, file by file, that is no log line.
pub fn merge_logs(files: &Vec<Vec<String>>, boottime: Option<Stamp>) -> (r: Result<LogSet, BadLine>)
    ensures
        r is Ok <==> all_files_read(files@, files@.len() as int),
        r matches Ok(set) ==> set.wf() && forall|v: LineView|
            set@.contains(v) <==> gathered_files(files@, files@.len() as int, boottime, v),
        r matches Err(b) ==> b.file < files@.len() && b.line < files@[b.file as int]@.len()
            && line_of(files@[b.file as int]@[b.line as int]@) is None
            && all_files_read(files@, b.file as int)
            && all_read(files@[b.file as int]@, b.line as int),
{
    let mut set = LogSet::new();
    let mut f: usize = 0;
    while f < files.len()
        invariant
            f <= files.len(),
            set.wf(),
            all_files_read(files@, f as int),
            forall|v: LineView| set@.contains(v) <==> gathered_files(files@, f as int, boottime, v),
        decreases files.len() - f,
    {
        if let Some(k) = find_bad_line(&files[f]) {
            return Err(BadLine { file: f, line: k });
        }
        extract_loglines(&files[f], &mut set, boottime);
        proof {
            assert forall|v: LineView|
                set@.contains(v) <==> gathered_files(files@, f + 1, boottime, v) by {
                if gathered_files(files@, f + 1, boottime, v) && !gathered_files(
                    files@,
                    f as int,
                    boottime,
                    v,
                ) {
                    let g = choose|g: int|
                        0 <= g < f + 1 && gathered(
                            #[trigger] files@[g]@,
                            files@[g]@.len() as int,
                            boottime,
                            v,
                        );
                    assert(g == f);
                }
                if gathered(files@[f as int]@, files@[f as int]@.len() as int, boottime, v) {
                    assert(gathered_files(files@, f + 1, boottime, v));
                }
            }
        }
        f = f + 1;
    }
    Ok(set)
}

} // verus!
