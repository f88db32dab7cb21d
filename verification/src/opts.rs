//! Option types shared by the comparison pipeline and its tools.

use vstd::prelude::*;

verus! {

/// How two curves are reduced to one scalar.
///
/// `Abs`, `Sqrt` and `Cbrt` are elementwise combinators fed through the
/// ragged-length weighted mean; `Corr` replaces the whole pair comparison by
/// the Pearson correlation coefficient of the two sample sequences and
/// requires all curves to be padded to one common length first.
#[derive(Copy, Clone, Debug, PartialEq, Eq, Structural)]
pub enum Mode {
    Abs,
    Sqrt,
    Cbrt,
    Corr,
}

impl Mode {
    /// Decodes the numeric mode chosen on the command line; modes outside
    /// the closed set yield `None`.
    pub fn try_from_num(num: usize) -> (r: Option<Mode>)
        ensures
            num == 0 ==> r == Some(Mode::Abs),
            num == 1 ==> r == Some(Mode::Sqrt),
            num == 2 ==> r == Some(Mode::Cbrt),
            num == 3 ==> r == Some(Mode::Corr),
            num > 3 ==> r is None,
    {
        match num {
            0 => Some(Mode::Abs),
            1 => Some(Mode::Sqrt),
            2 => Some(Mode::Cbrt),
            3 => Some(Mode::Corr),
            _ => None,
        }
    }
}

/// How parsed curves are stored: `Sparse` truncates each trajectory at its
/// extinction step, `Naive` keeps every sample.
#[derive(Debug, Copy, Clone, PartialEq, Eq, Structural)]
pub enum DataMode {
    Naive,
    Sparse,
}

/// Options of the heatmap (curve comparison) pipeline.
#[derive(Clone)]
pub struct HeatmapOpts {
    pub n: usize,
    pub n_real: Option<usize>,
    pub bin_count: usize,
    pub files: String,
    pub bin_size: usize,
    pub save: String,
    pub j: usize,
    pub no_p_bar: bool,
    pub every: usize,
    pub cutoff: usize,
    pub mode: Mode,
    pub suffix: String,
    pub data_mode: DataMode,
    pub norm: bool,
    pub no_subtract: bool,
    pub max_entries: Option<usize>,
    pub print_bin_lens: bool,
    pub c0: bool,
}

/// Options of the histogram tool.
#[derive(Clone)]
pub struct HistogramOpts {
    pub n: usize,
    pub bins: usize,
    pub files: String,
    pub bin_size: usize,
    pub save: String,
    pub j: usize,
    pub no_p_bar: bool,
    pub every: usize,
    pub suffix: String,
    pub hist_reduce: HistReduce,
}

/// How a whole curve is reduced to the single scalar that is counted into a
/// histogram.
#[derive(Debug, Clone, Copy, PartialEq, Eq, Structural)]
pub enum HistReduce {
    IndexMax,
    ValMax,
    Median,
}

/// Uppercase ASCII letters folded onto their lowercase code points; all
/// other characters keep their own code point.
pub open spec fn fold_code(c: char) -> u32 {
    if 65 <= c as u32 <= 90 {
        (c as u32 + 32) as u32
    } else {
        c as u32
    }
}

/// Equality of two character sequences up to ASCII case.
pub open spec fn ascii_case_eq(a: Seq<char>, b: Seq<char>) -> bool {
    a.len() == b.len() && forall|t: int| 0 <= t < a.len() ==> fold_code(a[t]) == fold_code(b[t])
}

/// Compares `s` with `pat` ignoring ASCII case.
fn eq_ignore_ascii(s: &str, pat: &str) -> (r: bool)
    ensures
        r == ascii_case_eq(s@, pat@),
{
    let s_len = s.unicode_len();
    let p_len = pat.unicode_len();
    if s_len != p_len {
        return false;
    }
    for t in 0..s_len
        invariant
            s_len == s@.len(),
            p_len == pat@.len(),
            s_len == p_len,
            forall|idx: int| 0 <= idx < t ==> fold_code(s@[idx]) == fold_code(pat@[idx]),
    {
        let a = s.get_char(t) as u32;
        let b = pat.get_char(t) as u32;
        let a = if 65 <= a && a <= 90 {
            a + 32
        } else {
            a
        };
        let b = if 65 <= b && b <= 90 {
            b + 32
        } else {
            b
        };
        if a != b {
            return false;
        }
    }
    true
}

impl HistReduce {
    /// Accepted spellings of each reduction, compared ignoring ASCII case.
    pub open spec fn parses_to(s: Seq<char>) -> Option<HistReduce> {
        if ascii_case_eq(s, "indexmax"@) || ascii_case_eq(s, "index_max"@) {
            Some(HistReduce::IndexMax)
        } else if ascii_case_eq(s, "val_max"@) || ascii_case_eq(s, "valmax"@) {
            Some(HistReduce::ValMax)
        } else if ascii_case_eq(s, "median"@) {
            Some(HistReduce::Median)
        } else {
            None
        }
    }
}

/// The crate version tag that generated file names begin with.
pub open spec fn version_label() -> Seq<char> {
    "0.1.0"@
}

/// The character of a single decimal digit.
pub open spec fn digit_char(d: int) -> char {
    if d == 0 {
        '0'
    } else if d == 1 {
        '1'
    } else if d == 2 {
        '2'
    } else if d == 3 {
        '3'
    } else if d == 4 {
        '4'
    } else if d == 5 {
        '5'
    } else if d == 6 {
        '6'
    } else if d == 7 {
        '7'
    } else if d == 8 {
        '8'
    } else {
        '9'
    }
}

/// The decimal digits of `n`, most significant first.
pub open spec fn decimal_of(n: int) -> Seq<char>
    recommends
        n >= 0,
    decreases n,
{
    if n < 10 {
        seq![digit_char(n)]
    } else {
        decimal_of(n / 10).push(digit_char(n % 10))
    }
}

fn push_digit(d: usize, out: &mut String)
    requires
        d < 10,
    ensures
        final(out)@ == old(out)@ + seq![digit_char(d as int)],
{
    proof {
        reveal_strlit("0");
        reveal_strlit("1");
        reveal_strlit("2");
        reveal_strlit("3");
        reveal_strlit("4");
        reveal_strlit("5");
        reveal_strlit("6");
        reveal_strlit("7");
        reveal_strlit("8");
        reveal_strlit("9");
    }
    match d {
        0 => out.append("0"),
        1 => out.append("1"),
        2 => out.append("2"),
        3 => out.append("3"),
        4 => out.append("4"),
        5 => out.append("5"),
        6 => out.append("6"),
        7 => out.append("7"),
        8 => out.append("8"),
        _ => out.append("9"),
    }
    proof {
        assert(final(out)@ =~= old(out)@ + seq![digit_char(d as int)]);
    }
}

/// Appends the decimal rendering of `n` to `out`.
fn push_decimal(n: usize, out: &mut String)
    ensures
        final(out)@ == old(out)@ + decimal_of(n as int),
    decreases n,
{
    if n < 10 {
        push_digit(n, out);
    } else {
        push_decimal(n / 10, out);
        push_digit(n % 10, out);
        proof {
            assert(final(out)@ =~= old(out)@ + decimal_of(n as int));
        }
    }
}

impl HistReduce {
    /// The reduction's name as it appears in generated file names.
    pub open spec fn label(&self) -> Seq<char> {
        match self {
            HistReduce::IndexMax => "IndexMax"@,
            HistReduce::ValMax => "ValMax"@,
            HistReduce::Median => "Median"@,
        }
    }

    /// The reduction's name, for display.
    pub fn label_str(&self) -> (r: &'static str)
        ensures
            r@ == self.label(),
    {
        match self {
            HistReduce::IndexMax => "IndexMax",
            HistReduce::ValMax => "ValMax",
            HistReduce::Median => "Median",
        }
    }
}

impl Mode {
    /// The mode's name as it appears in generated file names.
    pub open spec fn label(&self) -> Seq<char> {
        match self {
            Mode::Abs => "Abs"@,
            Mode::Sqrt => "Sqrt"@,
            Mode::Cbrt => "Cbrt"@,
            Mode::Corr => "Corr"@,
        }
    }

    /// The mode's name, for display.
    pub fn label_str(&self) -> (r: &'static str)
        ensures
            r@ == self.label(),
    {
        match self {
            Mode::Abs => "Abs",
            Mode::Sqrt => "Sqrt",
            Mode::Cbrt => "Cbrt",
            Mode::Corr => "Corr",
        }
    }
}

impl HistogramOpts {
    /// The exact name of an output file of the histogram tool: version tag,
    /// reduction name, node count, bin count, stride, save tag, input
    /// suffix, and the given extension.
    pub open spec fn filename_spec(&self, extension: Seq<char>) -> Seq<char> {
        "v"@ + version_label() + "_"@ + self.hist_reduce.label() + "_N"@ + decimal_of(self.n as int)
            + "_b"@ + decimal_of(self.bins as int) + "_e"@ + decimal_of(self.every as int) + "_"@
            + self.save@ + "."@ + self.suffix@ + "."@ + extension
    }

    /// Builds the output file name for the given extension.
    pub fn generate_filename(&self, extension: &str) -> (r: String)
        ensures
            r@ == self.filename_spec(extension@),
    {
        let mut out = String::new();
        out.append("v");
        out.append("0.1.0");
        out.append("_");
        out.append(self.hist_reduce.label_str());
        out.append("_N");
        push_decimal(self.n, &mut out);
        out.append("_b");
        push_decimal(self.bins, &mut out);
        out.append("_e");
        push_decimal(self.every, &mut out);
        out.append("_");
        out.append(self.save.as_str());
        out.append(".");
        out.append(self.suffix.as_str());
        out.append(".");
        out.append(extension);
        proof {
            assert(out@ =~= self.filename_spec(extension@));
        }
        out
    }
}

impl HeatmapOpts {
    /// The exact name of an output file of the comparison pipeline:
    /// version tag, mode name, whether curves were normed, actual and
    /// reachable node counts, bin count, stride, save tag, input suffix,
    /// and the given extension.
    pub open spec fn filename_spec(&self, extension: Seq<char>) -> Seq<char> {
        "v"@ + version_label() + "_"@ + self.mode.label() + "_"@ + (if self.norm {
            "norm"@
        } else {
            "NoNorm"@
        }) + "_N"@ + decimal_of(
            match self.n_real {
                Some(v) => v as int,
                None => self.n as int,
            },
        ) + "_Reach"@ + decimal_of(self.n as int) + "_b"@ + decimal_of(self.bin_count as int)
            + "_e"@ + decimal_of(self.every as int) + "_"@ + self.save@ + "."@ + self.suffix@ + "."@
            + extension
    }

    /// Builds the output file name for the given extension.
    pub fn generate_filename(&self, extension: &str) -> (r: String)
        ensures
            r@ == self.filename_spec(extension@),
    {
        let mut out = String::new();
        out.append("v");
        out.append("0.1.0");
        out.append("_");
        out.append(self.mode.label_str());
        out.append("_");
        if self.norm {
            out.append("norm");
        } else {
            out.append("NoNorm");
        }
        out.append("_N");
        let n_actual = match self.n_real {
            Some(val) => val,
            None => self.n,
        };
        push_decimal(n_actual, &mut out);
        out.append("_Reach");
        push_decimal(self.n, &mut out);
        out.append("_b");
        push_decimal(self.bin_count, &mut out);
        out.append("_e");
        push_decimal(self.every, &mut out);
        out.append("_");
        out.append(self.save.as_str());
        out.append(".");
        out.append(self.suffix.as_str());
        out.append(".");
        out.append(extension);
        proof {
            assert(out@ =~= self.filename_spec(extension@));
        }
        out
    }
}

impl core::str::FromStr for HistReduce {
    type Err = &'static str;

    fn from_str(s: &str) -> (r: Result<Self, Self::Err>)
        ensures
            HistReduce::parses_to(s@) is Some ==> r == Ok::<HistReduce, &'static str>(
                HistReduce::parses_to(s@)->Some_0,
            ),
            HistReduce::parses_to(s@) is None ==> r is Err,
    {
        if eq_ignore_ascii(s, "indexmax") || eq_ignore_ascii(s, "index_max") {
            Ok(HistReduce::IndexMax)
        } else if eq_ignore_ascii(s, "val_max") || eq_ignore_ascii(s, "valmax") {
            Ok(HistReduce::ValMax)
        } else if eq_ignore_ascii(s, "median") {
            Ok(HistReduce::Median)
        } else {
            Err("Invalid HistReduce requested")
        }
    }
}

} // verus!
