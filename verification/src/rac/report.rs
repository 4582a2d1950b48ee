//! The report on the best checkpoint of a run, put together from its metric logs.

use crate::ordered::{is_stable_order, stable_order};
use crate::scalar::Double;
use crate::text::{
    bare_line, decimal, line, push_bare_line, push_decimal, push_line,
};
use vstd::prelude::*;
use vstd::string::StringExecFns;

verus! {

/// Whether a character is white space.
pub open spec fn is_space(c: char) -> bool {
    let u = c as u32;
    ||| 0x9 <= u <= 0xd
    ||| u == 0x20
    ||| u == 0x85
    ||| u == 0xa0
    ||| u == 0x1680
    ||| 0x2000 <= u <= 0x200a
    ||| u == 0x2028
    ||| u == 0x2029
    ||| u == 0x202f
    ||| u == 0x205f
    ||| u == 0x3000
}

fn is_space_char(c: char) -> (r: bool)
    ensures
        r == is_space(c),
{
    let u: u32 = c as u32;
    (0x9 <= u && u <= 0xd) || u == 0x20 || u == 0x85 || u == 0xa0 || u == 0x1680 || (0x2000 <= u && u
        <= 0x200a) || u == 0x2028 || u == 0x2029 || u == 0x202f || u == 0x205f || u == 0x3000
}

/// `s` without white space at its front.
pub open spec fn trimmed_front(s: Seq<char>) -> Seq<char>
    decreases s.len(),
{
    if s.len() > 0 && is_space(s[0]) {
        trimmed_front(s.skip(1))
    } else {
        s
    }
}

/// `s` without white space at its back.
pub open spec fn trimmed_back(s: Seq<char>) -> Seq<char>
    decreases s.len(),
{
    if s.len() > 0 && is_space(s.last()) {
        trimmed_back(s.drop_last())
    } else {
        s
    }
}

/// `s` without white space around it.
pub open spec fn trimmed(s: Seq<char>) -> Seq<char> {
    trimmed_back(trimmed_front(s))
}

/// The lines of a text. A text that ends in a line break has an empty last line.
pub open spec fn lines_of(text: Seq<char>) -> Seq<Seq<char>>
    decreases text.len(),
{
    if text.len() == 0 {
        seq![Seq::empty()]
    } else {
        let earlier = lines_of(text.drop_last());
        if text.last() == '\n' {
            earlier.push(Seq::empty())
        } else {
            earlier.drop_last().push(earlier.last().push(text.last()))
        }
    }
}

/// What stands in front of the first comma.
pub open spec fn first_cell(s: Seq<char>) -> Seq<char>
    decreases s.len(),
{
    if s.len() == 0 || s[0] == ',' {
        Seq::empty()
    } else {
        seq![s[0]] + first_cell(s.skip(1))
    }
}

/// The value field of a log line: its first cell.
pub open spec fn value_field(line: Seq<char>) -> Seq<char> {
    trimmed(first_cell(trimmed(line)))
}

/// The value fields of the lines among the first `n` that are not blank.
pub open spec fn value_fields(lines: Seq<Seq<char>>, n: nat) -> Seq<Seq<char>>
    decreases n,
{
    if n == 0 {
        Seq::empty()
    } else {
        let earlier = value_fields(lines, (n - 1) as nat);
        if trimmed(lines[n - 1]).len() == 0 {
            earlier
        } else {
            earlier.push(value_field(lines[n - 1]))
        }
    }
}

/// The characters of a list of fields.
pub open spec fn field_views(fields: Seq<Vec<char>>) -> Seq<Seq<char>> {
    fields.map_values(|f: Vec<char>| f@)
}

fn copy_chars(chars: &Vec<char>, from: usize, to: usize) -> (out: Vec<char>)
    requires
        from <= to <= chars@.len(),
    ensures
        out@ == chars@.subrange(from as int, to as int),
{
    let mut out: Vec<char> = Vec::new();
    let mut i: usize = from;
    while i < to
        invariant
            from <= i <= to <= chars@.len(),
            out@ == chars@.subrange(from as int, i as int),
        decreases to - i,
    {
        out.push(chars[i]);
        i += 1;
        assert(out@ =~= chars@.subrange(from as int, i as int));
    }
    assert(out@ =~= chars@.subrange(from as int, to as int));
    out
}

fn trim_chars(chars: &Vec<char>) -> (out: Vec<char>)
    ensures
        out@ == trimmed(chars@),
{
    let mut from: usize = 0;
    assert(chars@.skip(0) =~= chars@);
    while from < chars.len() && is_space_char(chars[from])
        invariant
            from <= chars@.len(),
            trimmed_front(chars@) == trimmed_front(chars@.skip(from as int)),
        decreases chars@.len() - from,
    {
        assert(chars@.skip(from as int).skip(1) =~= chars@.skip(from + 1));
        from += 1;
    }
    let ghost front = chars@.skip(from as int);
    assert(trimmed_front(chars@) == front) by {
        if from < chars@.len() {
            assert(front[0] == chars@[from as int]);
        }
    }
    let mut to: usize = chars.len();
    assert(chars@.subrange(from as int, to as int) =~= front);
    while to > from && is_space_char(chars[to - 1])
        invariant
            from <= to <= chars@.len(),
            trimmed_back(front) == trimmed_back(chars@.subrange(from as int, to as int)),
        decreases to,
    {
        let ghost part = chars@.subrange(from as int, to as int);
        assert(part.drop_last() =~= chars@.subrange(from as int, to - 1));
        assert(part.last() == chars@[to - 1]);
        to -= 1;
    }
    proof {
        let part = chars@.subrange(from as int, to as int);
        if to > from {
            assert(part.last() == chars@[to - 1]);
        }
        assert(trimmed_back(part) == part);
    }
    copy_chars(chars, from, to)
}

fn first_cell_of(chars: &Vec<char>) -> (out: Vec<char>)
    ensures
        out@ == first_cell(chars@),
{
    let mut out: Vec<char> = Vec::new();
    let mut i: usize = 0;
    assert(chars@.skip(0) =~= chars@);
    assert(out@ + first_cell(chars@.skip(0)) =~= first_cell(chars@));
    while i < chars.len() && chars[i] != ','
        invariant
            i <= chars@.len(),
            out@ + first_cell(chars@.skip(i as int)) == first_cell(chars@),
        decreases chars@.len() - i,
    {
        let ghost before = out@;
        proof {
            let rest = chars@.skip(i as int);
            assert(rest[0] == chars@[i as int]);
            assert(rest.skip(1) =~= chars@.skip(i + 1));
        }
        out.push(chars[i]);
        i += 1;
        assert(out@ + first_cell(chars@.skip(i as int)) =~= before + first_cell(
            chars@.skip(i - 1),
        ));
    }
    proof {
        let rest = chars@.skip(i as int);
        if i < chars@.len() {
            assert(rest[0] == chars@[i as int]);
        }
        assert(first_cell(rest) =~= Seq::<char>::empty());
        assert(out@ + first_cell(rest) =~= out@);
    }
    out
}

/// Appends the value field of a line, unless the line is blank.
fn push_value_field(fields: &mut Vec<Vec<char>>, line: &Vec<char>)
    ensures
        field_views(final(fields)@) == (if trimmed(line@).len() == 0 {
            field_views(old(fields)@)
        } else {
            field_views(old(fields)@).push(value_field(line@))
        }),
{
    let bare = trim_chars(line);
    if bare.len() == 0 {
        return;
    }
    let cell = first_cell_of(&bare);
    let field = trim_chars(&cell);
    fields.push(field);
    assert(field_views(fields@) =~= field_views(old(fields)@).push(value_field(line@)));
}

proof fn lemma_value_fields_prefix(a: Seq<Seq<char>>, b: Seq<Seq<char>>, n: nat)
    requires
        n <= a.len(),
        n <= b.len(),
        forall|k: int| 0 <= k < n ==> a[k] == b[k],
    ensures
        value_fields(a, n) == value_fields(b, n),
    decreases n,
{
    if n > 0 {
        lemma_value_fields_prefix(a, b, (n - 1) as nat);
    }
}

proof fn lemma_lines_nonempty(text: Seq<char>)
    ensures
        lines_of(text).len() >= 1,
    decreases text.len(),
{
    if text.len() > 0 {
        lemma_lines_nonempty(text.drop_last());
    }
}

/// The value fields of a metric log, line by line. Which of them are numbers is for the caller to
/// say.
pub fn metric_log_fields(contents: &Vec<char>) -> (fields: Vec<Vec<char>>)
    ensures
        field_views(fields@) == value_fields(lines_of(contents@), lines_of(contents@).len()),
{
    let mut fields: Vec<Vec<char>> = Vec::new();
    let mut current: Vec<char> = Vec::new();
    let mut i: usize = 0;
    assert(lines_of(contents@.take(0)) =~= seq![Seq::<char>::empty()]);
    assert(field_views(fields@) =~= Seq::<Seq<char>>::empty());
    while i < contents.len()
        invariant
            i <= contents@.len(),
            ({
                let lines = lines_of(contents@.take(i as int));
                &&& lines.len() >= 1
                &&& current@ == lines.last()
                &&& field_views(fields@) == value_fields(lines, (lines.len() - 1) as nat)
            }),
        decreases contents@.len() - i,
    {
        let c: char = contents[i];
        let ghost lines = lines_of(contents@.take(i as int));
        let ghost now = lines_of(contents@.take(i + 1));
        proof {
            assert(contents@.take(i + 1).drop_last() =~= contents@.take(i as int));
            assert(contents@.take(i + 1).last() == c);
        }
        if c == '\n' {
            push_value_field(&mut fields, &current);
            current = Vec::new();
            proof {
                assert(now == lines.push(Seq::empty()));
                lemma_value_fields_prefix(now, lines, lines.len());
                assert(current@ =~= now.last());
            }
        } else {
            current.push(c);
            proof {
                assert(now == lines.drop_last().push(lines.last().push(c)));
                lemma_value_fields_prefix(now, lines, (lines.len() - 1) as nat);
                assert(current@ =~= now.last());
            }
        }
        i += 1;
    }
    assert(contents@.take(i as int) =~= contents@);
    push_value_field(&mut fields, &current);
    fields
}

/// The digits of a number in decimal notation.
pub open spec fn digit_value(c: char) -> Option<int> {
    let u = c as u32;
    if 0x30 <= u <= 0x39 {
        Some(u - 0x30)
    } else {
        None
    }
}

/// The number that a run of digits stands for; `None` where a character is no digit.
pub open spec fn digits_value(s: Seq<char>) -> Option<int>
    decreases s.len(),
{
    if s.len() == 0 {
        Some(0)
    } else {
        match (digits_value(s.drop_last()), digit_value(s.last())) {
            (Some(n), Some(d)) => Some(n * 10 + d),
            _ => None,
        }
    }
}

/// The number that a text stands for: at least one digit, with an optional plus sign in front, and
/// small enough for an index.
pub open spec fn parsed_number(s: Seq<char>) -> Option<int> {
    let digits = if s.len() > 0 && s[0] == '+' {
        s.skip(1)
    } else {
        s
    };
    match digits_value(digits) {
        Some(n) => if digits.len() > 0 && n <= usize::MAX {
            Some(n)
        } else {
            None
        },
        None => None,
    }
}

proof fn lemma_digits_value_grows(s: Seq<char>, k: int)
    requires
        0 <= k <= s.len(),
    ensures
        digits_value(s.take(k)) is None ==> digits_value(s) is None,
        digits_value(s) is Some ==> digits_value(s.take(k)) is Some && digits_value(s)->0
            >= digits_value(s.take(k))->0 >= 0,
    decreases s.len(),
{
    if k == s.len() {
        assert(s.take(k) =~= s);
        lemma_digits_value_nonnegative(s);
    } else {
        assert(s.drop_last().take(k) =~= s.take(k));
        lemma_digits_value_grows(s.drop_last(), k);
    }
}

proof fn lemma_digits_value_nonnegative(s: Seq<char>)
    ensures
        digits_value(s) is Some ==> digits_value(s)->0 >= 0,
    decreases s.len(),
{
    if s.len() > 0 {
        lemma_digits_value_nonnegative(s.drop_last());
    }
}

/// Reads an index in decimal notation.
pub fn parse_number(text: &str) -> (r: Option<usize>)
    ensures
        match r {
            Some(n) => parsed_number(text@) == Some(n as int),
            None => parsed_number(text@) is None,
        },
{
    let len: usize = text.unicode_len();
    let from: usize = if len > 0 && text.get_char(0) == '+' {
        1
    } else {
        0
    };
    let ghost digits = text@.skip(from as int);
    assert(from == 0 ==> digits =~= text@);
    if from == len {
        assert(digits.len() == 0);
        return None;
    }
    let mut n: usize = 0;
    let mut i: usize = from;
    assert(digits.take(0) =~= Seq::<char>::empty());
    while i < len
        invariant
            from <= i <= len,
            from <= 1,
            len == text@.len(),
            digits == text@.skip(from as int),
            digits_value(digits.take(i - from)) == Some(n as int),
            parsed_number(text@) == (match digits_value(digits) {
                Some(v) => if digits.len() > 0 && v <= usize::MAX {
                    Some(v)
                } else {
                    None
                },
                None => None::<int>,
            }),
        decreases len - i,
    {
        let c: char = text.get_char(i);
        let u: u32 = c as u32;
        proof {
            let k = i - from;
            assert(digits.take(k + 1).drop_last() =~= digits.take(k));
            assert(digits.take(k + 1).last() == c);
            lemma_digits_value_grows(digits, k + 1);
        }
        if u < 0x30 || u > 0x39 {
            return None;
        }
        let d: usize = (u - 0x30) as usize;
        if n > (usize::MAX - d) / 10 {
            assert(n * 10 + d > usize::MAX);
            return None;
        }
        n = n * 10 + d;
        i += 1;
    }
    assert(digits.take(i - from) =~= digits);
    Some(n)
}

/// The epoch that a validation directory is named after.
pub open spec fn epoch_of_name(name: Seq<char>) -> Option<int> {
    let prefix = "epoch-"@;
    if name.len() >= prefix.len() && name.take(prefix.len() as int) == prefix {
        parsed_number(name.skip(prefix.len() as int))
    } else {
        None
    }
}

/// The epoch that a validation directory is named after.
pub fn parse_epoch_dir(name: &str) -> (epoch: Option<usize>)
    ensures
        match epoch {
            Some(n) => epoch_of_name(name@) == Some(n as int),
            None => epoch_of_name(name@) is None,
        },
{
    let prefix: &str = "epoch-";
    let n: usize = name.unicode_len();
    let m: usize = prefix.unicode_len();
    if n < m {
        return None;
    }
    let head = name.substring_char(0, m).to_owned();
    assert(head@ =~= name@.take(m as int));
    if head != prefix.to_owned() {
        return None;
    }
    let rest = name.substring_char(m, n);
    assert(rest@ =~= name@.skip(m as int));
    parse_number(rest)
}

/// The name of an epoch's validation directory.
pub open spec fn epoch_name(epoch: nat) -> Seq<char> {
    "epoch-"@ + decimal(epoch)
}

/// The name of an epoch's validation directory.
pub fn epoch_dir_name(epoch: usize) -> (name: String)
    ensures
        name@ == epoch_name(epoch as nat),
{
    let mut name = String::new();
    name.append("epoch-");
    push_decimal(&mut name, epoch as u64);
    assert(name@ =~= epoch_name(epoch as nat));
    name
}

/// The epoch is read back from the directory that was named after it.
pub proof fn law_epoch_names_read_back(epoch: nat)
    requires
        epoch <= usize::MAX,
    ensures
        epoch_of_name(epoch_name(epoch)) == Some(epoch as int),
{
    let prefix = "epoch-"@;
    let name = epoch_name(epoch);
    assert(name.take(prefix.len() as int) =~= prefix);
    assert(name.skip(prefix.len() as int) =~= decimal(epoch));
    lemma_decimal_is_digits(epoch);
}

proof fn lemma_decimal_is_digits(n: nat)
    ensures
        digits_value(decimal(n)) == Some(n as int),
        decimal(n).len() > 0,
        decimal(n)[0] != '+',
    decreases n,
{
    if n < 10 {
        assert(decimal(n).drop_last() =~= Seq::empty());
        assert(digits_value(decimal(n).drop_last()) == Some(0int));
    } else {
        lemma_decimal_is_digits(n / 10);
        assert(decimal(n).drop_last() =~= decimal(n / 10));
    }
}

/// The validation directories in the order of their epochs, as positions in the listing.
pub fn epoch_order(epochs: &[usize]) -> (ordered: Vec<(usize, usize)>)
    ensures
        is_stable_order(ordered@, epochs@),
{
    stable_order(epochs)
}

/// Whether `k` is the first of the lowest scores. Scores that are not numbers or infinite never
/// win.
pub open spec fn is_best_score(scores: Seq<Double>, k: int) -> bool {
    let ceiling = Double { bits: 0x7ff0_0000_0000_0000 };
    &&& 0 <= k < scores.len()
    &&& scores[k].lt(ceiling)
    &&& forall|j: int| 0 <= j < k ==> (#[trigger] scores[j]).is_nan() || scores[k].lt(scores[j])
    &&& forall|j: int| k < j < scores.len() ==> !(#[trigger] scores[j]).lt(scores[k])
}

/// Whether no score can win.
pub open spec fn no_best_score(scores: Seq<Double>) -> bool {
    forall|j: int|
        0 <= j < scores.len() ==> !(#[trigger] scores[j]).lt(
            Double { bits: 0x7ff0_0000_0000_0000 },
        )
}

/// The epoch with the lowest validation loss, as a position in the scores.
pub fn select_best_epoch(scores: &[Double]) -> (best: Option<usize>)
    ensures
        match best {
            Some(k) => is_best_score(scores@, k as int),
            None => no_best_score(scores@),
        },
{
    let ceiling = Double { bits: 0x7ff0_0000_0000_0000 };
    let mut best: Option<usize> = None;
    let mut best_score: Double = ceiling;
    let mut i: usize = 0;
    while i < scores.len()
        invariant
            i <= scores@.len(),
            ceiling == (Double { bits: 0x7ff0_0000_0000_0000 }),
            match best {
                Some(k) => {
                    &&& k < i
                    &&& best_score == scores@[k as int]
                    &&& best_score.lt(ceiling)
                    &&& forall|j: int|
                        0 <= j < k ==> (#[trigger] scores@[j]).is_nan() || best_score.lt(scores@[j])
                    &&& forall|j: int| k < j < i ==> !(#[trigger] scores@[j]).lt(best_score)
                },
                None => best_score == ceiling && forall|j: int|
                    0 <= j < i ==> !(#[trigger] scores@[j]).lt(ceiling),
            },
        decreases scores@.len() - i,
    {
        let score: Double = scores[i];
        if score.less_than(best_score) {
            proof {
                assert forall|j: int| 0 <= j < i implies (#[trigger] scores@[j]).is_nan()
                    || score.lt(scores@[j]) by {
                    match best {
                        Some(k) => {
                            if j > k {
                                assert(!scores@[j].lt(best_score));
                            } else if j < k {
                                assert(scores@[j].is_nan() || best_score.lt(scores@[j]));
                            }
                        },
                        None => {
                            assert(!scores@[j].lt(ceiling));
                        },
                    }
                }
            }
            best = Some(i);
            best_score = score;
        }
        i += 1;
    }
    best
}

/// The file name of an epoch's checkpoint.
pub open spec fn checkpoint_name(epoch: nat) -> Seq<char> {
    "model-"@ + decimal(epoch) + ".bin"@
}

/// The file name of an epoch's checkpoint.
pub fn checkpoint_file_name(epoch: usize) -> (name: String)
    ensures
        name@ == checkpoint_name(epoch as nat),
{
    let mut name = String::new();
    name.append("model-");
    push_decimal(&mut name, epoch as u64);
    name.append(".bin");
    assert(name@ =~= checkpoint_name(epoch as nat));
    name
}

/// Checkpoints of different epochs have different names.
pub proof fn law_checkpoint_names_differ(a: nat, b: nat)
    requires
        checkpoint_name(a) == checkpoint_name(b),
    ensures
        a == b,
{
    let p = "model-"@;
    let s = ".bin"@;
    assert(checkpoint_name(a) =~= p + decimal(a) + s);
    assert(decimal(a) =~= checkpoint_name(a).subrange(
        p.len() as int,
        checkpoint_name(a).len() - s.len(),
    ));
    assert(decimal(b) =~= checkpoint_name(b).subrange(
        p.len() as int,
        checkpoint_name(b).len() - s.len(),
    ));
    crate::text::law_decimal_is_injective(a, b);
}

/// Whether a file is one of the two forms of this report, which it does not list.
pub fn is_report_file(name: &String) -> (r: bool)
    ensures
        r == (name@ == "rac_best_checkpoint_report.json"@ || name@
            == "rac_best_checkpoint_report.md"@),
{
    *name == "rac_best_checkpoint_report.json".to_owned() || *name
        == "rac_best_checkpoint_report.md".to_owned()
}

/// A metric that is logged for every validation epoch.
#[derive(Clone, Copy, Debug, PartialEq, Eq, Structural)]
pub enum RacMetric {
    Loss,
    ForwardReconLoss,
    ForwardPathLoss,
    ForwardVelocityLoss,
    ForwardPsnr,
    ReverseLatentLoss,
    ReverseToInitLoss,
    RoundtripReconLoss,
    RoundtripPsnr,
    ProbeLoss,
    ProbeAccuracy,
}

impl RacMetric {
    /// The name under which the metric is logged.
    pub open spec fn text(self) -> Seq<char> {
        match self {
            RacMetric::Loss => "Loss"@,
            RacMetric::ForwardReconLoss => "rac_inv_loss"@,
            RacMetric::ForwardPathLoss => "rac_forward_path_loss"@,
            RacMetric::ForwardVelocityLoss => "rac_forward_velocity_loss"@,
            RacMetric::ForwardPsnr => "rac_recon_psnr_masked"@,
            RacMetric::ReverseLatentLoss => "rac_reverse_latent_loss"@,
            RacMetric::ReverseToInitLoss => "rac_reverse_to_init_loss"@,
            RacMetric::RoundtripReconLoss => "rac_recon_loss"@,
            RacMetric::RoundtripPsnr => "rac_recon_psnr_full"@,
            RacMetric::ProbeLoss => "rac_probe_loss"@,
            RacMetric::ProbeAccuracy => "rac_probe_acc"@,
        }
    }

    /// The name under which the metric is logged.
    pub fn name(self) -> (name: &'static str)
        ensures
            name@ == self.text(),
    {
        match self {
            RacMetric::Loss => "Loss",
            RacMetric::ForwardReconLoss => "rac_inv_loss",
            RacMetric::ForwardPathLoss => "rac_forward_path_loss",
            RacMetric::ForwardVelocityLoss => "rac_forward_velocity_loss",
            RacMetric::ForwardPsnr => "rac_recon_psnr_masked",
            RacMetric::ReverseLatentLoss => "rac_reverse_latent_loss",
            RacMetric::ReverseToInitLoss => "rac_reverse_to_init_loss",
            RacMetric::RoundtripReconLoss => "rac_recon_loss",
            RacMetric::RoundtripPsnr => "rac_recon_psnr_full",
            RacMetric::ProbeLoss => "rac_probe_loss",
            RacMetric::ProbeAccuracy => "rac_probe_acc",
        }
    }

    /// The file of the metric in an epoch's directory.
    pub fn log_file(self) -> (name: String)
        ensures
            name@ == self.text() + ".log"@,
    {
        let mut name = String::new();
        name.append(self.name());
        name.append(".log");
        assert(name@ =~= self.text() + ".log"@);
        name
    }
}

/// A metric of the best epoch. Mean and last value are given as they are printed.
#[derive(Debug)]
pub struct MetricSummary {
    pub name: String,
    pub path: String,
    pub mean: String,
    pub last: String,
}

/// The line of one metric.
pub open spec fn metric_line(label: Seq<char>, metric: Option<MetricSummary>) -> Seq<char> {
    match metric {
        Some(m) => "- "@ + label + ": mean "@ + m.mean@ + ", last "@ + m.last@ + " ("@ + m.path@
            + ")\n"@,
        None => "- "@ + label + ": unavailable\n"@,
    }
}

fn push_metric_line(out: &mut String, label: &str, metric: &Option<MetricSummary>)
    ensures
        final(out)@ == old(out)@ + metric_line(label@, *metric),
{
    match metric {
        Some(m) => {
            out.append("- ");
            out.append(label);
            out.append(": mean ");
            out.append(m.mean.as_str());
            out.append(", last ");
            out.append(m.last.as_str());
            out.append(" (");
            out.append(m.path.as_str());
            out.append(")\n");
        },
        None => {
            out.append("- ");
            out.append(label);
            out.append(": unavailable\n");
        },
    }
    assert(out@ =~= old(out)@ + metric_line(label@, *metric));
}

/// The report on the best checkpoint of a run.
#[derive(Debug)]
pub struct RacBestCheckpointReport {
    pub run_name: String,
    pub run_dir: String,
    pub best_epoch: Option<usize>,
    pub primary_metric: Option<MetricSummary>,
    /// The checkpoint of the best epoch, where its file exists; there is none without a best epoch.
    pub checkpoint: Option<String>,
    pub forward_recon_loss: Option<MetricSummary>,
    pub forward_path_loss: Option<MetricSummary>,
    pub forward_velocity_loss: Option<MetricSummary>,
    pub forward_psnr: Option<MetricSummary>,
    pub reverse_latent_loss: Option<MetricSummary>,
    pub reverse_to_init_loss: Option<MetricSummary>,
    pub roundtrip_recon_loss: Option<MetricSummary>,
    pub roundtrip_psnr: Option<MetricSummary>,
    pub probe_loss: Option<MetricSummary>,
    pub probe_accuracy: Option<MetricSummary>,
    pub artifacts: Vec<String>,
}

/// A line with a quoted value.
pub open spec fn quoted_line(label: Seq<char>, value: Seq<char>) -> Seq<char> {
    label + value + "`\n"@
}

pub(crate) fn push_quoted_line(out: &mut String, label: &str, value: &str)
    ensures
        final(out)@ == old(out)@ + quoted_line(label@, value@),
{
    out.append(label);
    out.append(value);
    out.append("`\n");
    assert(out@ =~= old(out)@ + quoted_line(label@, value@));
}

/// The lines on the best epoch.
pub open spec fn best_epoch_lines(epoch: Option<usize>, metric: Option<MetricSummary>) -> Seq<char> {
    match (epoch, metric) {
        (Some(e), Some(m)) => quoted_line("- Best epoch: `"@, decimal(e as nat))
            + "- Primary metric: `"@ + m.name@ + "` mean `"@ + m.mean@ + "`\n"@,
        _ => bare_line("- Best epoch: unavailable"@),
    }
}

fn push_best_epoch_lines(out: &mut String, epoch: Option<usize>, metric: &Option<MetricSummary>)
    ensures
        final(out)@ == old(out)@ + best_epoch_lines(epoch, *metric),
{
    match (epoch, metric) {
        (Some(e), Some(m)) => {
            out.append("- Best epoch: `");
            push_decimal(out, e as u64);
            out.append("`\n");
            out.append("- Primary metric: `");
            out.append(m.name.as_str());
            out.append("` mean `");
            out.append(m.mean.as_str());
            out.append("`\n");
        },
        _ => {
            push_bare_line(out, "- Best epoch: unavailable");
        },
    }
    assert(out@ =~= old(out)@ + best_epoch_lines(epoch, *metric));
}

/// The line on the checkpoint, where there is a best epoch.
pub open spec fn checkpoint_line(epoch: Option<usize>, checkpoint: Option<String>) -> Seq<char> {
    match epoch {
        Some(_) => quoted_line(
            "- Checkpoint: `"@,
            match checkpoint {
                Some(path) => path@,
                None => "missing checkpoint file"@,
            },
        ),
        None => Seq::empty(),
    }
}

fn push_checkpoint_line(out: &mut String, epoch: Option<usize>, checkpoint: &Option<String>)
    ensures
        final(out)@ == old(out)@ + checkpoint_line(epoch, *checkpoint),
{
    match epoch {
        Some(_) => match checkpoint {
            Some(path) => push_quoted_line(out, "- Checkpoint: `", path.as_str()),
            None => push_quoted_line(out, "- Checkpoint: `", "missing checkpoint file"),
        },
        None => {
            assert(out@ =~= old(out)@ + Seq::<char>::empty());
        },
    }
}

/// The lines of the first `n` artifacts.
pub open spec fn artifact_lines(artifacts: Seq<String>, n: nat) -> Seq<char>
    decreases n,
{
    if n == 0 {
        Seq::empty()
    } else {
        artifact_lines(artifacts, (n - 1) as nat) + quoted_line("- `"@, artifacts[n - 1]@)
    }
}

/// The list of artifacts.
pub open spec fn artifact_list(artifacts: Seq<String>) -> Seq<char> {
    if artifacts.len() == 0 {
        bare_line("- none"@)
    } else {
        artifact_lines(artifacts, artifacts.len())
    }
}

fn push_artifact_list(out: &mut String, artifacts: &Vec<String>)
    ensures
        final(out)@ == old(out)@ + artifact_list(artifacts@),
{
    if artifacts.len() == 0 {
        push_bare_line(out, "- none");
        return;
    }
    let mut i: usize = 0;
    assert(out@ =~= old(out)@ + artifact_lines(artifacts@, 0));
    while i < artifacts.len()
        invariant
            i <= artifacts@.len(),
            out@ == old(out)@ + artifact_lines(artifacts@, i as nat),
        decreases artifacts@.len() - i,
    {
        push_quoted_line(out, "- `", artifacts[i].as_str());
        i += 1;
        assert(out@ =~= old(out)@ + artifact_lines(artifacts@, i as nat));
    }
}

/// The fixed notes of every report.
pub open spec fn report_note_texts() -> Seq<Seq<char>> {
    seq![
        "best epoch is selected by lowest validation mean Loss across all batches in that epoch"@,
        "rac_inv_loss corresponds to forward decode reconstruction loss in the current RAC trainer"@,
        "artifact files may reflect the latest validation pass rather than the selected best epoch when artifact_overwrite=true"@,
    ]
}

/// The fixed notes of every report.
pub fn report_note_list() -> (notes: Vec<&'static str>)
    ensures
        crate::cifar::name_views(notes@) == report_note_texts(),
{
    let mut notes: Vec<&'static str> = Vec::new();
    notes.push(
        "best epoch is selected by lowest validation mean Loss across all batches in that epoch",
    );
    notes.push(
        "rac_inv_loss corresponds to forward decode reconstruction loss in the current RAC trainer",
    );
    notes.push(
        "artifact files may reflect the latest validation pass rather than the selected best epoch when artifact_overwrite=true",
    );
    assert(crate::cifar::name_views(notes@) =~= report_note_texts());
    notes
}

/// The notes, one on a line.
pub open spec fn report_notes() -> Seq<char> {
    let notes = report_note_texts();
    line("- "@, notes[0]) + line("- "@, notes[1]) + line("- "@, notes[2])
}

fn push_report_notes(out: &mut String)
    ensures
        final(out)@ == old(out)@ + report_notes(),
{
    let notes = report_note_list();
    proof {
        let views = crate::cifar::name_views(notes@);
        assert(views.len() == 3);
        assert(views[0] == notes@[0]@ && views[1] == notes@[1]@ && views[2] == notes@[2]@);
    }
    push_line(out, "- ", notes[0]);
    push_line(out, "- ", notes[1]);
    push_line(out, "- ", notes[2]);
    assert(out@ =~= old(out)@ + report_notes());
}

impl RacBestCheckpointReport {
    /// The report as text.
    pub open spec fn markdown(&self) -> Seq<char> {
        Seq::<char>::empty() + bare_line("# RAC Best Checkpoint Report"@) + bare_line(""@)
            + quoted_line("- Run: `"@, self.run_name@) + quoted_line("- Run dir: `"@, self.run_dir@)
            + bare_line("- Selection rule: lowest validation mean Loss"@) + best_epoch_lines(
            self.best_epoch,
            self.primary_metric,
        ) + checkpoint_line(self.best_epoch, self.checkpoint) + bare_line(""@) + bare_line(
            "## Forward Decode"@,
        ) + metric_line("recon loss"@, self.forward_recon_loss) + metric_line(
            "path loss"@,
            self.forward_path_loss,
        ) + metric_line("velocity loss"@, self.forward_velocity_loss) + metric_line(
            "PSNR"@,
            self.forward_psnr,
        ) + bare_line(""@) + bare_line("## Reverse Encode"@) + metric_line(
            "latent loss"@,
            self.reverse_latent_loss,
        ) + metric_line("to-init loss"@, self.reverse_to_init_loss) + bare_line(""@) + bare_line(
            "## Roundtrip"@,
        ) + metric_line("roundtrip loss"@, self.roundtrip_recon_loss) + metric_line(
            "roundtrip PSNR"@,
            self.roundtrip_psnr,
        ) + bare_line(""@) + bare_line("## Probe"@) + metric_line("probe loss"@, self.probe_loss)
            + metric_line("probe accuracy"@, self.probe_accuracy) + bare_line(""@) + bare_line(
            "## Artifacts"@,
        ) + artifact_list(self.artifacts@) + bare_line(""@) + bare_line("## Notes"@)
            + report_notes()
    }

    /// The report as text.
    pub fn report_markdown(&self) -> (out: String)
        ensures
            out@ == self.markdown(),
    {
        let mut out = String::new();
        push_bare_line(&mut out, "# RAC Best Checkpoint Report");
        push_bare_line(&mut out, "");
        push_quoted_line(&mut out, "- Run: `", self.run_name.as_str());
        push_quoted_line(&mut out, "- Run dir: `", self.run_dir.as_str());
        push_bare_line(&mut out, "- Selection rule: lowest validation mean Loss");
        push_best_epoch_lines(&mut out, self.best_epoch, &self.primary_metric);
        push_checkpoint_line(&mut out, self.best_epoch, &self.checkpoint);
        push_bare_line(&mut out, "");
        push_bare_line(&mut out, "## Forward Decode");
        push_metric_line(&mut out, "recon loss", &self.forward_recon_loss);
        push_metric_line(&mut out, "path loss", &self.forward_path_loss);
        push_metric_line(&mut out, "velocity loss", &self.forward_velocity_loss);
        push_metric_line(&mut out, "PSNR", &self.forward_psnr);
        push_bare_line(&mut out, "");
        push_bare_line(&mut out, "## Reverse Encode");
        push_metric_line(&mut out, "latent loss", &self.reverse_latent_loss);
        push_metric_line(&mut out, "to-init loss", &self.reverse_to_init_loss);
        push_bare_line(&mut out, "");
        push_bare_line(&mut out, "## Roundtrip");
        push_metric_line(&mut out, "roundtrip loss", &self.roundtrip_recon_loss);
        push_metric_line(&mut out, "roundtrip PSNR", &self.roundtrip_psnr);
        push_bare_line(&mut out, "");
        push_bare_line(&mut out, "## Probe");
        push_metric_line(&mut out, "probe loss", &self.probe_loss);
        push_metric_line(&mut out, "probe accuracy", &self.probe_accuracy);
        push_bare_line(&mut out, "");
        push_bare_line(&mut out, "## Artifacts");
        push_artifact_list(&mut out, &self.artifacts);
        push_bare_line(&mut out, "");
        push_bare_line(&mut out, "## Notes");
        push_report_notes(&mut out);
        out
    }
}

/// Trimming takes white space off both ends and nothing else, and leaves none there.
pub proof fn law_trimming_takes_white_space_off_the_ends(s: Seq<char>)
    ensures
        exists|front: int, back: int|
            0 <= front <= back <= s.len() && trimmed(s) == #[trigger] s.subrange(front, back) && (
            forall|k: int| 0 <= k < front || back <= k < s.len() ==> is_space(#[trigger] s[k])),
        trimmed(s).len() > 0 ==> !is_space(trimmed(s)[0]) && !is_space(trimmed(s).last()),
{
    let front = lemma_trimmed_front(s);
    let rest = s.skip(front);
    let end = lemma_trimmed_back(rest);
    let back = front + end;
    assert(s.subrange(front, back) =~= rest.take(end));
    assert forall|k: int| 0 <= k < front || back <= k < s.len() implies is_space(
        #[trigger] s[k],
    ) by {
        if k >= back {
            assert(s[k] == rest[k - front]);
        }
    }
    if end > 0 {
        assert(rest.take(end)[0] == rest[0]);
    }
}

proof fn lemma_trimmed_front(s: Seq<char>) -> (n: int)
    ensures
        0 <= n <= s.len(),
        trimmed_front(s) == s.skip(n),
        forall|k: int| 0 <= k < n ==> is_space(#[trigger] s[k]),
        n < s.len() ==> !is_space(s[n]),
    decreases s.len(),
{
    if s.len() > 0 && is_space(s[0]) {
        let m = lemma_trimmed_front(s.skip(1));
        assert(s.skip(1).skip(m) =~= s.skip(m + 1));
        assert forall|k: int| 0 <= k < m + 1 implies is_space(#[trigger] s[k]) by {
            if k > 0 {
                assert(s[k] == s.skip(1)[k - 1]);
            }
        }
        m + 1
    } else {
        assert(s.skip(0) =~= s);
        0
    }
}

proof fn lemma_trimmed_back(s: Seq<char>) -> (n: int)
    ensures
        0 <= n <= s.len(),
        trimmed_back(s) == s.take(n),
        forall|k: int| n <= k < s.len() ==> is_space(#[trigger] s[k]),
        n > 0 ==> !is_space(s[n - 1]),
    decreases s.len(),
{
    if s.len() > 0 && is_space(s.last()) {
        let m = lemma_trimmed_back(s.drop_last());
        assert(s.drop_last().take(m) =~= s.take(m));
        assert forall|k: int| m <= k < s.len() implies is_space(#[trigger] s[k]) by {
            if k < s.len() - 1 {
                assert(s[k] == s.drop_last()[k]);
            }
        }
        m
    } else {
        assert(s.take(s.len() as int) =~= s);
        s.len() as int
    }
}

/// Text without a line break is one line.
pub proof fn law_text_without_breaks_is_one_line(text: Seq<char>)
    requires
        forall|k: int| 0 <= k < text.len() ==> #[trigger] text[k] != '\n',
    ensures
        lines_of(text) == seq![text],
    decreases text.len(),
{
    if text.len() > 0 {
        assert(text.last() != '\n');
        law_text_without_breaks_is_one_line(text.drop_last());
        assert(seq![text.drop_last()].drop_last() =~= Seq::empty());
        assert(text.drop_last().push(text.last()) =~= text);
    } else {
        assert(text =~= Seq::empty());
    }
    assert(lines_of(text) =~= seq![text]);
}

/// A line break parts the lines in front of it from those behind it.
pub proof fn law_a_break_parts_the_lines(a: Seq<char>, b: Seq<char>)
    ensures
        lines_of(a + seq!['\n'] + b) == lines_of(a) + lines_of(b),
        lines_of(b).len() >= 1,
    decreases b.len(),
{
    let whole = a + seq!['\n'] + b;
    if b.len() == 0 {
        assert(whole.drop_last() =~= a);
        assert(lines_of(a).push(Seq::empty()) =~= lines_of(a) + seq![Seq::<char>::empty()]);
    } else {
        let rest = b.drop_last();
        law_a_break_parts_the_lines(a, rest);
        assert(whole.drop_last() =~= a + seq!['\n'] + rest);
        assert(whole.last() == b.last());
        assert(lines_of(whole) =~= lines_of(a) + lines_of(b));
    }
}

/// The first cell holds no comma, and either it is the whole text or a comma follows it there.
pub proof fn law_first_cell_ends_at_the_first_comma(s: Seq<char>)
    ensures
        ({
            let cell = first_cell(s);
            &&& cell.len() <= s.len()
            &&& cell == s.take(cell.len() as int)
            &&& forall|k: int| 0 <= k < cell.len() ==> #[trigger] cell[k] != ','
            &&& cell.len() < s.len() ==> s[cell.len() as int] == ','
        }),
    decreases s.len(),
{
    if s.len() > 0 && s[0] != ',' {
        let rest = s.skip(1);
        law_first_cell_ends_at_the_first_comma(rest);
        let cell = first_cell(s);
        assert(cell =~= s.take(cell.len() as int)) by {
            assert forall|k: int| 0 <= k < cell.len() implies cell[k] == s[k] by {
                if k > 0 {
                    assert(cell[k] == first_cell(rest)[k - 1]);
                    assert(first_cell(rest)[k - 1] == rest.take(first_cell(rest).len() as int)[k
                        - 1]);
                }
            }
        }
        assert forall|k: int| 0 <= k < cell.len() implies #[trigger] cell[k] != ',' by {
            if k > 0 {
                assert(cell[k] == first_cell(rest)[k - 1]);
            }
        }
    } else {
        assert(first_cell(s) =~= s.take(0));
    }
}

/// One line gives its field, and a line of white space gives none.
pub proof fn law_a_line_gives_its_field(text: Seq<char>)
    ensures
        (forall|k: int| 0 <= k < text.len() ==> is_space(#[trigger] text[k])) ==> value_fields(
            seq![text],
            1,
        ).len() == 0,
        (exists|k: int| 0 <= k < text.len() && !is_space(#[trigger] text[k])) ==> value_fields(
            seq![text],
            1,
        ) == seq![trimmed(first_cell(trimmed(text)))],
{
    reveal_with_fuel(value_fields, 2);
    law_trimming_takes_white_space_off_the_ends(text);
    assert(Seq::<Seq<char>>::empty().push(value_field(text)) =~= seq![value_field(text)]);
    if trimmed(text).len() > 0 {
        let (front, back) = choose|front: int, back: int|
            0 <= front <= back <= text.len() && trimmed(text) == #[trigger] text.subrange(
                front,
                back,
            ) && (forall|k: int|
                0 <= k < front || back <= k < text.len() ==> is_space(#[trigger] text[k]));
        assert(trimmed(text)[0] == text[front]);
    }
}

/// The fields of a log come in the order of its lines: those of its front, then those of its back.
pub proof fn law_fields_follow_the_lines(a: Seq<Seq<char>>, b: Seq<Seq<char>>)
    ensures
        value_fields(a + b, (a + b).len()) == value_fields(a, a.len()) + value_fields(b, b.len()),
    decreases b.len(),
{
    if b.len() == 0 {
        assert(a + b =~= a);
        assert(value_fields(a, a.len()) + Seq::<Seq<char>>::empty() =~= value_fields(a, a.len()));
    } else {
        let rest = b.drop_last();
        law_fields_follow_the_lines(a, rest);
        lemma_fields_of_prefix(a + b, a + rest, (a + rest).len());
        lemma_fields_of_prefix(b, rest, rest.len());
        assert((a + b).last() == b.last());
        assert(value_fields(a + b, (a + b).len()) =~= value_fields(a, a.len()) + value_fields(
            b,
            b.len(),
        ));
    }
}

proof fn lemma_fields_of_prefix(long: Seq<Seq<char>>, short: Seq<Seq<char>>, n: nat)
    requires
        n <= short.len() <= long.len(),
        short =~= long.subrange(0, short.len() as int),
    ensures
        value_fields(long, n) == value_fields(short, n),
    decreases n,
{
    if n > 0 {
        lemma_fields_of_prefix(long, short, (n - 1) as nat);
    }
}

/// The best score is a finite or negatively infinite number. No other number is lower, and an equal
/// one only comes later; so there is at most one best score.
pub proof fn law_best_score_is_the_first_of_the_lowest(scores: Seq<Double>, k: int, j: int)
    requires
        is_best_score(scores, k),
        0 <= j < scores.len(),
    ensures
        !scores[k].is_nan(),
        scores[k].rank() < 0x7ff0_0000_0000_0000,
        !scores[j].is_nan() ==> scores[k].rank() <= scores[j].rank(),
        !scores[j].is_nan() && j < k ==> scores[k].rank() < scores[j].rank(),
        is_best_score(scores, j) ==> j == k,
        !no_best_score(scores),
{
}

/// There is a best score unless every score is positive infinity or no number.
pub proof fn law_numbers_have_a_best_score(scores: Seq<Double>)
    ensures
        no_best_score(scores) <==> forall|j: int|
            0 <= j < scores.len() ==> (#[trigger] scores[j]).is_nan() || scores[j].rank()
                == 0x7ff0_0000_0000_0000,
{
}

/// Appending a digit to a run of digits multiplies its number by ten and adds the digit; any other
/// character makes it no number. A plus sign in front changes nothing.
pub proof fn law_numbers_are_decimal(s: Seq<char>, c: char)
    requires
        s.len() >= 1,
        s[0] != '+',
    ensures
        '0' <= c <= '9' && digits_value(s) is Some ==> digits_value(s.push(c)) == Some(
            digits_value(s)->0 * 10 + (c as u32 - '0' as u32),
        ),
        !('0' <= c <= '9') || digits_value(s) is None ==> parsed_number(s.push(c)) is None,
        parsed_number(seq!['+'] + s) == parsed_number(s),
        parsed_number(seq!['+']) is None,
        parsed_number(Seq::empty()) is None,
        parsed_number(s) matches Some(n) ==> digits_value(s) == Some(n) && n <= usize::MAX,
        digits_value(s) matches Some(n) ==> n <= usize::MAX ==> parsed_number(s) == Some(n),
{
    assert(s.push(c).drop_last() =~= s);
    assert((seq!['+'] + s).skip(1) =~= s);
    assert(s.push(c)[0] == s[0]);
    assert(seq!['+'].skip(1) =~= Seq::<char>::empty());
}

/// A report lists its artifacts one after the other, and says so where there is none.
pub proof fn law_artifacts_are_listed_in_order(artifacts: Seq<String>)
    ensures
        artifacts.len() == 0 ==> artifact_list(artifacts) == bare_line("- none"@),
        artifacts.len() == 1 ==> artifact_list(artifacts) == quoted_line("- `"@, artifacts[0]@),
        artifacts.len() >= 2 ==> artifact_list(artifacts) == artifact_list(artifacts.drop_last())
            + quoted_line("- `"@, artifacts.last()@),
{
    reveal_with_fuel(artifact_lines, 2);
    if artifacts.len() == 1 {
        assert(artifact_lines(artifacts, 1) =~= quoted_line("- `"@, artifacts[0]@));
    }
    if artifacts.len() >= 2 {
        lemma_lines_of_prefix(artifacts, (artifacts.len() - 1) as nat);
    }
}

proof fn lemma_lines_of_prefix(artifacts: Seq<String>, n: nat)
    requires
        n < artifacts.len(),
    ensures
        artifact_lines(artifacts, n) == artifact_lines(artifacts.drop_last(), n),
    decreases n,
{
    if n > 0 {
        lemma_lines_of_prefix(artifacts, (n - 1) as nat);
    }
}

} // verus!
