//! The outcome of an evaluation: the confusion matrix, what is read off it, and the
//! report that shows it.

use vstd::prelude::*;

use crate::labels::Priority;
use crate::numbers::{decimal, decimal_string};

verus! {

/// How often each true priority was predicted as each priority.
#[derive(Debug, Clone, Copy, PartialEq, Eq)]
pub struct Confusion {
    /// Indexed by class: `cells[true][predicted]`.
    pub cells: [[u32; 3]; 3],
}

/// The model of a confusion matrix: one row of counts per true class.
pub type Matrix = Seq<Seq<u32>>;

impl View for Confusion {
    type V = Matrix;

    open spec fn view(&self) -> Matrix {
        Seq::new(3, |t: int| self.cells@[t]@)
    }
}

/// The matrix of no messages.
pub open spec fn no_messages() -> Matrix {
    Seq::new(3, |t: int| Seq::new(3, |p: int| 0u32))
}

/// The matrix after one more message of the priority `truth` was predicted as
/// `predicted`.
pub open spec fn recorded(m: Matrix, truth: Priority, predicted: Priority) -> Matrix {
    let t = truth.index() as int;
    let p = predicted.index() as int;
    m.update(t, m[t].update(p, (m[t][p] + 1) as u32))
}

/// How many messages the class `t` has.
pub open spec fn row_sum(m: Matrix, t: int) -> int {
    m[t][0] + m[t][1] + m[t][2]
}

/// How many messages there are.
pub open spec fn sum(m: Matrix) -> int {
    row_sum(m, 0) + row_sum(m, 1) + row_sum(m, 2)
}

/// How many messages were predicted right.
pub open spec fn right(m: Matrix) -> int {
    m[0][0] + m[1][1] + m[2][2]
}

/// How many messages were predicted at a distance of one class.
pub open spec fn off_by_one(m: Matrix) -> int {
    m[0][1] + m[1][0] + m[1][2] + m[2][1]
}

/// How many messages were predicted at a distance of two classes.
pub open spec fn off_by_two(m: Matrix) -> int {
    m[0][2] + m[2][0]
}

impl Confusion {
    /// The matrix before anything was predicted.
    pub fn new() -> (r: Confusion)
        ensures
            r@ == no_messages(),
    {
        let r = Confusion { cells: [[0, 0, 0], [0, 0, 0], [0, 0, 0]] };
        assert forall|t: int| 0 <= t < 3 implies r@[t] == no_messages()[t] by {
            assert(r@[t] =~= no_messages()[t]);
        }
        assert(r@ =~= no_messages());
        r
    }

    /// Count one message of the priority `truth` that was predicted as `predicted`.
    pub fn record(&mut self, truth: Priority, predicted: Priority)
        requires
            old(self)@[truth.index() as int][predicted.index() as int] < u32::MAX,
        ensures
            final(self)@ == recorded(old(self)@, truth, predicted),
    {
        let t = truth.to_index();
        let p = predicted.to_index();
        let mut row: [u32; 3] = self.cells[t];
        row[p] = row[p] + 1;
        self.cells[t] = row;
        assert(row@ == old(self)@[t as int].update(
            p as int,
            (old(self)@[t as int][p as int] + 1) as u32,
        ));
    }

    /// How many messages of the priority `truth` were predicted right, and how many
    /// there are: the recall is the first by the second. `None` where there are
    /// none, and no recall.
    pub fn recall_parts(&self, truth: Priority) -> (r: Option<(u32, u32)>)
        requires
            row_sum(self@, truth.index() as int) <= u32::MAX,
        ensures
            r is None <==> row_sum(self@, truth.index() as int) == 0,
            r matches Some(parts) ==> parts.0 == self@[truth.index() as int][truth.index() as int]
                && parts.1 == row_sum(self@, truth.index() as int),
    {
        let t = truth.to_index();
        let row: [u32; 3] = self.cells[t];
        let total: u32 = row[0] + row[1] + row[2];
        if total == 0 {
            None
        } else {
            Some((row[t], total))
        }
    }

    /// How many messages there are.
    pub fn total(&self) -> (r: u32)
        requires
            sum(self@) <= u32::MAX,
        ensures
            r == sum(self@),
    {
        self.row_total(0) + self.row_total(1) + self.row_total(2)
    }

    fn row_total(&self, t: usize) -> (r: u32)
        requires
            t < 3,
            row_sum(self@, t as int) <= u32::MAX,
        ensures
            r == row_sum(self@, t as int),
    {
        let row: [u32; 3] = self.cells[t];
        row[0] + row[1] + row[2]
    }

    /// How many messages were predicted right.
    pub fn correct(&self) -> (r: u32)
        requires
            sum(self@) <= u32::MAX,
        ensures
            r == right(self@),
    {
        self.cells[0][0] + self.cells[1][1] + self.cells[2][2]
    }

    /// How many messages were predicted right, and how many there are: the accuracy
    /// is the first by the second. `None` where there are none, and no accuracy.
    pub fn accuracy_parts(&self) -> (r: Option<(u32, u32)>)
        requires
            sum(self@) <= u32::MAX,
        ensures
            r is None <==> sum(self@) == 0,
            r matches Some(parts) ==> parts.0 == right(self@) && parts.1 == sum(self@),
    {
        let total = self.total();
        if total == 0 {
            None
        } else {
            Some((self.correct(), total))
        }
    }

    /// How many errors were off by one class: P1 for P2 or P2 for P3, and back.
    pub fn adjacent(&self) -> (r: u32)
        requires
            sum(self@) <= u32::MAX,
        ensures
            r == off_by_one(self@),
    {
        self.cells[0][1] + self.cells[1][0] + self.cells[1][2] + self.cells[2][1]
    }

    /// How many errors were off by two classes: P1 for P3, and back.
    pub fn distant(&self) -> (r: u32)
        requires
            sum(self@) <= u32::MAX,
        ensures
            r == off_by_two(self@),
    {
        self.cells[0][2] + self.cells[2][0]
    }
}

/// Whether `m` has three rows of three counts.
pub open spec fn is_square(m: Matrix) -> bool {
    m.len() == 3 && m[0].len() == 3 && m[1].len() == 3 && m[2].len() == 3
}

/// Every message is predicted right, off by one class or off by two.
pub proof fn law_every_message_is_right_or_an_error(m: Matrix)
    requires
        is_square(m),
    ensures
        right(m) + off_by_one(m) + off_by_two(m) == sum(m),
{
}

/// Recording a message counts it once: in the row of its true priority, and among
/// the right ones, the adjacent errors or the distant errors by how far off the
/// prediction is.
pub proof fn law_record_counts_once(m: Matrix, truth: Priority, predicted: Priority)
    requires
        is_square(m),
        m[truth.index() as int][predicted.index() as int] < u32::MAX,
    ensures
        is_square(recorded(m, truth, predicted)),
        sum(recorded(m, truth, predicted)) == sum(m) + 1,
        row_sum(recorded(m, truth, predicted), truth.index() as int) == row_sum(
            m,
            truth.index() as int,
        ) + 1,
        right(recorded(m, truth, predicted)) == right(m) + if truth == predicted {
            1int
        } else {
            0int
        },
        off_by_one(recorded(m, truth, predicted)) == off_by_one(m) + if truth.index()
            - predicted.index() == 1 || predicted.index() - truth.index() == 1 {
            1int
        } else {
            0int
        },
        off_by_two(recorded(m, truth, predicted)) == off_by_two(m) + if truth.index()
            - predicted.index() == 2 || predicted.index() - truth.index() == 2 {
            1int
        } else {
            0int
        },
{
}

/// `n` spaces.
pub open spec fn spaces(n: nat) -> Seq<char> {
    Seq::new(n, |i: int| ' ')
}

/// `s` with as many spaces in front as it takes to fill `width` characters.
pub open spec fn right_aligned(s: Seq<char>, width: nat) -> Seq<char> {
    if s.len() >= width {
        s
    } else {
        spaces((width - s.len()) as nat) + s
    }
}

fn append_aligned(out: &mut String, s: &str, width: usize)
    ensures
        final(out)@ == old(out)@ + right_aligned(s@, width as nat),
{
    let n = s.unicode_len();
    let mut i: usize = n;
    while i < width
        invariant
            n == s@.len(),
            n <= i,
            n < width ==> i <= width,
            n >= width ==> i == n,
            out@ == old(out)@ + spaces((i - n) as nat),
        decreases width - i,
    {
        out.push(' ');
        assert(spaces((i - n) as nat).push(' ') == spaces((i + 1 - n) as nat));
        i += 1;
    }
    out.append(s);
}

/// The label of a row or column of the matrix.
pub open spec fn heading(p: Priority) -> Seq<char> {
    match p {
        Priority::P1 => "prio-low "@,
        Priority::P2 => "prio-norm"@,
        Priority::P3 => "prio-high"@,
    }
}

fn heading_of(p: Priority) -> (r: &'static str)
    ensures
        r@ == heading(p),
{
    match p {
        Priority::P1 => "prio-low ",
        Priority::P2 => "prio-norm",
        Priority::P3 => "prio-high",
    }
}

/// The line of the matrix for the true priority `t`, with its recall as text.
pub open spec fn row_line(m: Matrix, t: Priority, recall: Seq<char>) -> Seq<char> {
    let row = m[t.index() as int];
    heading(t) + "  "@ + right_aligned(decimal(row[0] as nat), 11) + right_aligned(
        decimal(row[1] as nat),
        11,
    ) + right_aligned(decimal(row[2] as nat), 11) + "   | recall "@ + recall + "%\n"@
}

fn row_text(m: &Confusion, t: Priority, recall: &str) -> (r: String)
    ensures
        r@ == row_line(m@, t, recall@),
{
    let row: [u32; 3] = m.cells[t.to_index()];
    assert(row@ == m@[t.index() as int]);
    let mut line = heading_of(t).to_owned();
    line.append("  ");
    append_aligned(&mut line, &decimal_string(row[0] as u64), 11);
    append_aligned(&mut line, &decimal_string(row[1] as u64), 11);
    append_aligned(&mut line, &decimal_string(row[2] as u64), 11);
    line.append("   | recall ");
    line.append(recall);
    line.append("%\n");
    line
}

/// The head of the report, down to the columns of the matrix.
pub open spec fn report_head(cutoff: Seq<char>, scored: nat) -> Seq<char> {
    "\ntime-held-out evaluation, cutoff "@ + cutoff + "  ("@ + decimal(scored)
        + " test message(s))\nrows = true label, cols = predicted\n\n            "@ + heading(
        Priority::P1,
    ) + "   "@ + heading(Priority::P2) + "   "@ + heading(Priority::P3) + "\n"@
}

/// The foot of the report, below the matrix.
pub open spec fn report_foot(m: Matrix, accuracy: Seq<char>) -> Seq<char> {
    "\noverall accuracy : "@ + accuracy + "%  ("@ + decimal(right(m) as nat) + "/"@ + decimal(
        sum(m) as nat,
    ) + ")\nadjacent errors  : "@ + decimal(off_by_one(m) as nat)
        + "  (p1↔p2, p2↔p3)\ndistant  errors  : "@ + decimal(off_by_two(m) as nat)
        + "  (p1↔p3 — the costly ones)\n"@
}

/// The report of an evaluation: the confusion matrix, one row per true priority
/// with its recall, then the accuracy and the errors by how far off they are. The
/// percentages come as text, `recalls` in class-index order.
pub fn report(
    cutoff: &str,
    m: &Confusion,
    scored: usize,
    recalls: &[String; 3],
    accuracy: &str,
) -> (r: String)
    requires
        sum(m@) <= u32::MAX,
    ensures
        r@ == report_head(cutoff@, scored as nat) + row_line(m@, Priority::P1, recalls@[0]@)
            + row_line(m@, Priority::P2, recalls@[1]@) + row_line(m@, Priority::P3, recalls@[2]@)
            + report_foot(m@, accuracy@),
{
    let mut out = "\ntime-held-out evaluation, cutoff ".to_owned();
    out.append(cutoff);
    out.append("  (");
    out.append(&decimal_string(scored as u64));
    out.append(" test message(s))\nrows = true label, cols = predicted\n\n            ");
    out.append(heading_of(Priority::P1));
    out.append("   ");
    out.append(heading_of(Priority::P2));
    out.append("   ");
    out.append(heading_of(Priority::P3));
    out.append("\n");
    assert(out@ == report_head(cutoff@, scored as nat));
    out.append(&row_text(m, Priority::P1, &recalls[0]));
    out.append(&row_text(m, Priority::P2, &recalls[1]));
    out.append(&row_text(m, Priority::P3, &recalls[2]));
    out.append(&foot_text(m, accuracy));
    out
}

fn foot_text(m: &Confusion, accuracy: &str) -> (r: String)
    requires
        sum(m@) <= u32::MAX,
    ensures
        r@ == report_foot(m@, accuracy@),
{
    let mut foot = "\noverall accuracy : ".to_owned();
    foot.append(accuracy);
    foot.append("%  (");
    foot.append(&decimal_string(m.correct() as u64));
    foot.append("/");
    foot.append(&decimal_string(m.total() as u64));
    foot.append(")\nadjacent errors  : ");
    foot.append(&decimal_string(m.adjacent() as u64));
    foot.append("  (p1↔p2, p2↔p3)\ndistant  errors  : ");
    foot.append(&decimal_string(m.distant() as u64));
    foot.append("  (p1↔p3 — the costly ones)\n");
    foot
}

/// What the counts of a matrix of no messages come to.
pub proof fn law_no_messages(t: int, p: int)
    requires
        0 <= t < 3,
        0 <= p < 3,
    ensures
        is_square(no_messages()),
        no_messages()[t][p] == 0,
        sum(no_messages()) == 0,
        row_sum(no_messages(), t) == 0,
        right(no_messages()) == 0,
        off_by_one(no_messages()) == 0,
        off_by_two(no_messages()) == 0,
{
}

/// A message is counted in the cell of its true and its predicted priority, and in no
/// other.
pub proof fn law_record_counts_one_cell(
    m: Matrix,
    truth: Priority,
    predicted: Priority,
    t: int,
    p: int,
)
    requires
        is_square(m),
        m[truth.index() as int][predicted.index() as int] < u32::MAX,
        0 <= t < 3,
        0 <= p < 3,
    ensures
        recorded(m, truth, predicted)[t][p] == m[t][p] + if t == truth.index() && p
            == predicted.index() {
            1int
        } else {
            0int
        },
{
}

/// What is read off a matrix, cell by cell: a row is the true priority, a column the
/// predicted one.
pub proof fn law_metrics(m: Matrix, t: int)
    requires
        is_square(m),
        0 <= t < 3,
    ensures
        row_sum(m, t) == m[t][0] + m[t][1] + m[t][2],
        sum(m) == row_sum(m, 0) + row_sum(m, 1) + row_sum(m, 2),
        right(m) == m[0][0] + m[1][1] + m[2][2],
        off_by_one(m) == m[0][1] + m[1][0] + m[1][2] + m[2][1],
        off_by_two(m) == m[0][2] + m[2][0],
{
}

/// A matrix is known cell by cell.
pub proof fn law_view_of_a_matrix(c: Confusion, t: int, p: int)
    requires
        0 <= t < 3,
        0 <= p < 3,
    ensures
        is_square(c@),
        c@[t][p] == c.cells@[t]@[p],
{
}

/// Aligning puts spaces in front of a text, as many as are missing, and takes nothing
/// from it.
pub proof fn law_aligned(s: Seq<char>, width: nat, i: int)
    ensures
        s.is_suffix_of(right_aligned(s, width)),
        right_aligned(s, width).len() == if s.len() >= width {
            s.len()
        } else {
            width
        },
        0 <= i < right_aligned(s, width).len() - s.len() ==> right_aligned(s, width)[i] == ' ',
{
    let r = right_aligned(s, width);
    assert(r.subrange(r.len() - s.len(), r.len() as int) == s);
}

/// A line of the matrix shows the heading of its priority, then all three counts of its
/// row in full, then the recall.
pub proof fn law_row_line(m: Matrix, t: Priority, recall: Seq<char>)
    ensures
        row_line(m, t, recall) == heading(t) + "  "@ + right_aligned(
            decimal(m[t.index() as int][0] as nat),
            11,
        ) + right_aligned(decimal(m[t.index() as int][1] as nat), 11) + right_aligned(
            decimal(m[t.index() as int][2] as nat),
            11,
        ) + "   | recall "@ + recall + "%\n"@,
        heading(Priority::P1) == "prio-low "@,
        heading(Priority::P2) == "prio-norm"@,
        heading(Priority::P3) == "prio-high"@,
{
}

/// The head of a report names the cutoff and the number of messages that were scored, and
/// heads the columns in class-index order; its foot gives the accuracy with its two parts,
/// and the errors by how far off they are.
pub proof fn law_head_and_foot(cutoff: Seq<char>, scored: nat, m: Matrix, accuracy: Seq<char>)
    ensures
        report_head(cutoff, scored) == "\ntime-held-out evaluation, cutoff "@ + cutoff + "  ("@
            + decimal(scored)
            + " test message(s))\nrows = true label, cols = predicted\n\n            "@
            + "prio-low "@ + "   "@ + "prio-norm"@ + "   "@ + "prio-high"@ + "\n"@,
        report_foot(m, accuracy) == "\noverall accuracy : "@ + accuracy + "%  ("@ + decimal(
            right(m) as nat,
        ) + "/"@ + decimal(sum(m) as nat) + ")\nadjacent errors  : "@ + decimal(
            off_by_one(m) as nat,
        ) + "  (p1↔p2, p2↔p3)\ndistant  errors  : "@ + decimal(off_by_two(m) as nat)
            + "  (p1↔p3 — the costly ones)\n"@,
{
}

} // verus!
