use crate::library::str_eq;
use crate::render::{buffers_after, plan_passes, planned, PassBinding};
use vstd::arithmetic::div_mod::{
    lemma_add_mod_noop_right, lemma_fundamental_div_mod, lemma_mod_multiples_vanish,
    lemma_mul_mod_noop_left,
};
use vstd::prelude::*;
use vstd::string::{StrSliceExecFns, StringExecFns};

verus! {

/// Common declarations put before every pass of an effect program.
pub const EFFECT_HEADER: &'static str = "precision mediump float;\nuniform sampler2D iNoise;\nuniform sampler2D iInputs[8];\nuniform sampler2D iChannel[8];\nuniform float iIntensity;\nuniform float iIntensityIntegral;\nuniform float iTime;\nuniform float iStep;\nuniform float iFPS;\nuniform vec4 iAudio;\nuniform vec2 iResolution;\nvarying vec2 uv;";

/// One period of the intensity integral, in thousandths times milliseconds.
pub const INTEGRAL_PERIOD: u64 = 1024000000;

/// One period of the time handed to shaders, in milliseconds.
pub const TIME_PERIOD: u64 = 2048000;

/// What `str::trim` gives for a text.
pub uninterp spec fn trimmed(s: Seq<char>) -> Seq<char>;

/// Value of a run of decimal digits.
pub open spec fn digits_value(d: Seq<char>) -> int
    decreases d.len(),
{
    if d.len() == 0 {
        0
    } else {
        digits_value(d.drop_last()) * 10 + (d.last() as int - '0' as int)
    }
}

/// A count written in decimal: an optional `+`, then one or more ASCII
/// digits, with a value that fits in `usize`.
pub open spec fn parsed_usize(s: Seq<char>) -> Option<usize> {
    let d = if s.len() > 0 && s[0] == '+' {
        s.subrange(1, s.len() as int)
    } else {
        s
    };
    if d.len() > 0 && (forall|i: int| 0 <= i < d.len() ==> '0' <= #[trigger] d[i] <= '9') && digits_value(d)
        <= usize::MAX {
        Some(digits_value(d) as usize)
    } else {
        None
    }
}

/// The pieces of `s` between occurrences of `c`, in order.
pub open spec fn split_on(s: Seq<char>, c: char) -> Seq<Seq<char>>
    decreases s.len(),
{
    if exists|i: int| 0 <= i < s.len() && s[i] == c {
        let i = choose|i: int| 0 <= i < s.len() && s[i] == c && forall|j: int| 0 <= j < i ==> s[j] != c;
        if 0 <= i < s.len() {
            seq![s.subrange(0, i)] + split_on(s.subrange(i + 1, s.len() as int), c)
        } else {
            seq![s]
        }
    } else {
        seq![s]
    }
}

/// Relies on `str::split` with a `char` pattern: the pieces between matches.
#[verifier::external_body]
pub(crate) fn split_lines(s: &str) -> (r: Vec<String>)
    ensures
        r@.len() == split_on(s@, '\n').len(),
        forall|i: int| 0 <= i < r@.len() ==> #[trigger] r@[i]@ == split_on(s@, '\n')[i],
{
    s.split('\n').map(|l| l.to_string()).collect()
}

/// Relies on `str::trim`: the result depends on the text alone.
#[verifier::external_body]
fn trim(s: &str) -> (r: &str)
    ensures
        r@ == trimmed(s@),
{
    s.trim()
}

/// Relies on `str::parse::<usize>` (`usize::from_str_radix` in base 10):
/// an optional `+`, then ASCII digits, refused on overflow.
#[verifier::external_body]
fn parse_usize(s: &str) -> (r: Option<usize>)
    ensures
        r == parsed_usize(s@),
{
    s.parse::<usize>().ok()
}

/// Index of the first space in `t`, if any.
pub open spec fn first_space(t: Seq<char>) -> Option<int> {
    if exists|i: int| 0 <= i < t.len() && t[i] == ' ' {
        Some(choose|i: int| 0 <= i < t.len() && t[i] == ' ' && forall|j: int| 0 <= j < i ==> t[j] != ' ')
    } else {
        None
    }
}

/// The text before the first space of `t`, and the text after it.
pub open spec fn split_first(t: Seq<char>) -> Option<(Seq<char>, Seq<char>)> {
    match first_space(t) {
        Some(i) => Some((t.subrange(0, i), t.subrange(i + 1, t.len() as int))),
        None => None,
    }
}

/// First space-separated term of `t`.
pub open spec fn head(t: Seq<char>) -> Seq<char> {
    match split_first(t) {
        Some(p) => p.0,
        None => t,
    }
}

/// The key and value of a `#property` line: second term, then the rest.
pub open spec fn property_of(t: Seq<char>) -> Option<(Seq<char>, Seq<char>)> {
    match split_first(t) {
        Some(p) => split_first(p.1),
        None => None,
    }
}

/// Decimal digits of `n`.
pub open spec fn decimal(n: nat) -> Seq<char>
    decreases n,
{
    if n < 10 {
        seq![digit_char(n)]
    } else {
        decimal(n / 10).push(digit_char(n % 10))
    }
}

pub open spec fn digit_char(d: nat) -> char {
    if d == 0 { '0' } else if d == 1 { '1' } else if d == 2 { '2' } else if d == 3 { '3' } else if d == 4 {
        '4'
    } else if d == 5 { '5' } else if d == 6 { '6' } else if d == 7 { '7' } else if d == 8 { '8' } else {
        '9'
    }
}

/// The start of a pass source whose first own line is line `line` of the
/// program: the common header and a line marker.
pub open spec fn pass_preamble(line: nat) -> Seq<char> {
    EFFECT_HEADER@ + "\n#line "@ + decimal(line) + "\n"@
}

/// Reading of one more program line, line `n` counted from 1, after the
/// state `st`: finished passes, the pass being read, and the properties in
/// order. `None` for a `#property` line that lacks a key or value.
pub open spec fn read_line(
    st: (Seq<Seq<char>>, Seq<char>, Seq<(Seq<char>, Seq<char>)>),
    line: Seq<char>,
    n: nat,
) -> Option<(Seq<Seq<char>>, Seq<char>, Seq<(Seq<char>, Seq<char>)>)> {
    let t = trimmed(line);
    if head(t) == "#property"@ {
        match property_of(t) {
            Some(kv) => Some((st.0, st.1 + "\n"@, st.2.push(kv))),
            None => None,
        }
    } else if head(t) == "#buffershader"@ {
        Some((st.0.push(st.1), pass_preamble(n) + "\n"@, st.2))
    } else {
        Some((st.0, st.1 + line + "\n"@, st.2))
    }
}

/// State after the first `n` lines; `None` once a line is refused.
pub open spec fn read_lines(lines: Seq<Seq<char>>, n: nat) -> Option<
    (Seq<Seq<char>>, Seq<char>, Seq<(Seq<char>, Seq<char>)>),
>
    decreases n,
{
    if n == 0 {
        Some((Seq::empty(), pass_preamble(1), Seq::empty()))
    } else {
        match read_lines(lines, (n - 1) as nat) {
            None => None,
            Some(st) => read_line(st, lines[n - 1], n),
        }
    }
}

proof fn lemma_read_lines_stays_refused(lines: Seq<Seq<char>>, n: nat, m: nat)
    requires
        n <= m,
        read_lines(lines, n) is None,
    ensures
        read_lines(lines, m) is None,
    decreases m - n,
{
    if n < m {
        lemma_read_lines_stays_refused(lines, n, (m - 1) as nat);
    }
}

/// Value of the last property named `key`, if any.
pub open spec fn last_value(props: Seq<(Seq<char>, Seq<char>)>, key: Seq<char>) -> Option<Seq<char>>
    decreases props.len(),
{
    if props.len() == 0 {
        None
    } else if props.last().0 == key {
        Some(props.last().1)
    } else {
        last_value(props.drop_last(), key)
    }
}

/// Why an effect could not be built.
#[derive(Clone, Copy, Debug, PartialEq, Eq, Structural)]
pub enum EffectError {
    /// The library holds no program under that name.
    UnknownEffect,
    /// A `#property` line without a key or a value.
    PropertyParse,
    /// An `inputCount` property that is not a count.
    InvalidInputCount,
}

/// Splits `t` at its first space.
fn split_first_exec(t: &str) -> (r: Option<(&str, &str)>)
    ensures
        match split_first(t@) {
            Some(p) => r matches Some(q) && q.0@ == p.0 && q.1@ == p.1,
            None => r is None,
        },
{
    let n = t.unicode_len();
    let mut i: usize = 0;
    while i < n
        invariant
            n == t@.len(),
            i <= n,
            forall|j: int| 0 <= j < i ==> t@[j] != ' ',
        decreases n - i,
    {
        if t.get_char(i) == ' ' {
            proof {
                let k = choose|k: int| 0 <= k < t@.len() && t@[k] == ' ' && forall|j: int| 0 <= j < k ==> t@[j] != ' ';
                if k < i {
                    assert(t@[k] != ' ');
                } else if k > i {
                    assert(t@[i as int] != ' ');
                }
                assert(k == i);
            }
            return Some((t.substring_char(0, i), t.substring_char(i + 1, n)));
        }
        i = i + 1;
    }
    None
}

fn digit_str(d: usize) -> (r: &'static str)
    requires
        d < 10,
    ensures
        r@ == seq![digit_char(d as nat)],
{
    proof {
        reveal_strlit("0");
        reveal_strlit("1");
        reveal_strlit("2");
        reveal_strlit("3");
        reveal_strlit("4");
        reveal_strlit("5");
        reveal_strlit("6");
        reveal_strlit("7");
        reveal_strlit("8");
        reveal_strlit("9");
    }
    if d == 0 { "0" } else if d == 1 { "1" } else if d == 2 { "2" } else if d == 3 { "3" } else if d == 4 {
        "4"
    } else if d == 5 { "5" } else if d == 6 { "6" } else if d == 7 { "7" } else if d == 8 { "8" } else {
        "9"
    }
}

/// Reads line `line_no` (counted from 1) into the parse state; `false`
/// where the line is refused.
fn read_one_line(
    line: &str,
    line_no: usize,
    done: &mut Vec<String>,
    source: &mut String,
    properties: &mut Vec<(String, String)>,
    input_count: &mut Option<String>,
) -> (r: bool)
    requires
        match *old(input_count) {
            Some(v) => last_value(pair_views(old(properties)@), "inputCount"@) == Some(v@),
            None => last_value(pair_views(old(properties)@), "inputCount"@) is None,
        },
    ensures
        match read_line((views(old(done)@), old(source)@, pair_views(old(properties)@)), line@, line_no as nat) {
            None => !r,
            Some(st) => r && st == (views(final(done)@), final(source)@, pair_views(final(properties)@)),
        },
        match *final(input_count) {
            Some(v) => last_value(pair_views(final(properties)@), "inputCount"@) == Some(v@),
            None => last_value(pair_views(final(properties)@), "inputCount"@) is None,
        },
{
    proof {
        reveal_strlit("#property");
        reveal_strlit("#buffershader");
        reveal_strlit("inputCount");
        reveal_strlit("\n");
    }
    let t = trim(line);
    let (head_term, rest) = match split_first_exec(t) {
        Some((h, r)) => (h, Some(r)),
        None => (t, None),
    };
    if str_eq(head_term, "#property") {
        let kv = match rest {
            Some(r) => split_first_exec(r),
            None => None,
        };
        match kv {
            Some((k, v)) => {
                if str_eq(k, "inputCount") {
                    *input_count = Some(String::from_str(v));
                }
                let ghost pv = pair_views(properties@);
                properties.push((String::from_str(k), String::from_str(v)));
                proof {
                    assert(pair_views(properties@) =~= pv.push((k@, v@)));
                    assert(pair_views(properties@).drop_last() =~= pv);
                }
                source.append("\n");
                true
            },
            None => false,
        }
    } else if str_eq(head_term, "#buffershader") {
        let ghost dv = views(done@);
        let ghost sv = source@;
        let mut next = preamble(line_no);
        next.append("\n");
        core::mem::swap(source, &mut next);
        done.push(next);
        proof {
            assert(views(done@) =~= dv.push(sv));
        }
        true
    } else {
        source.append(line);
        source.append("\n");
        true
    }
}

/// Decimal digits of `n`.
pub fn decimal_string(n: u64) -> (r: String)
    ensures
        r@ == decimal(n as nat),
    decreases n,
{
    if n < 10 {
        String::from_str(digit_str(n as usize))
    } else {
        let mut r = decimal_string(n / 10);
        r.append(digit_str((n % 10) as usize));
        r
    }
}

/// The start of a pass whose first own line is line `line` of the program.
fn preamble(line: usize) -> (r: String)
    ensures
        r@ == pass_preamble(line as nat),
{
    let mut r = String::from_str(EFFECT_HEADER);
    r.append("\n#line ");
    let d = decimal_string(line as u64);
    r.append(d.as_str());
    r.append("\n");
    proof {
        reveal_strlit("\n#line ");
        reveal_strlit("\n");
    }
    r
}

pub open spec fn views(v: Seq<String>) -> Seq<Seq<char>> {
    v.map_values(|x: String| x@)
}

pub open spec fn pair_views(v: Seq<(String, String)>) -> Seq<(Seq<char>, Seq<char>)> {
    v.map_values(|x: (String, String)| (x.0@, x.1@))
}

/// Outcome of reading `program`: its pass sources and properties, and its
/// input count, or why it is refused.
pub open spec fn program_of(program: Seq<char>) -> Result<
    (Seq<Seq<char>>, Seq<(Seq<char>, Seq<char>)>, usize),
    EffectError,
> {
    let lines = split_on(program, '\n');
    match read_lines(lines, lines.len()) {
        None => Err(EffectError::PropertyParse),
        Some(st) => match last_value(st.2, "inputCount"@) {
            None => Ok((st.0.push(st.1), st.2, 1usize)),
            Some(v) => match parsed_usize(v) {
                Some(n) => Ok((st.0.push(st.1), st.2, n)),
                None => Err(EffectError::InvalidInputCount),
            },
        },
    }
}

/// `b` is `a` advanced to `time`: the clock reads `time`, the integral grew
/// by the elapsed time times the intensity, modulo `INTEGRAL_PERIOD`, and
/// nothing else changed.
pub open spec fn advanced(a: EffectNode, b: EffectNode, time: u64) -> bool {
    &&& b.wf()
    &&& b.spec_time() == time
    &&& b.spec_integral() == (a.spec_integral() + (time as int - a.spec_time() as int) * a.spec_intensity())
        % (INTEGRAL_PERIOD as int)
    &&& b.spec_intensity() == a.spec_intensity()
    &&& b.sources() == a.sources()
    &&& b.passes() == a.passes()
    &&& b.properties() == a.properties()
    &&& b.spec_n_inputs() == a.spec_n_inputs()
    &&& b.spec_id() == a.spec_id()
    &&& b.spec_name() == a.spec_name()
}

/// A shader effect: one or more passes read from a program text, the
/// compiled program of each pass once it exists, and its animation state.
pub struct EffectNode {
    id: usize,
    name: String,
    n_inputs: usize,
    time: u64,
    intensity: u32,
    intensity_integral: u64,
    shader_sources: Vec<String>,
    shader_passes: Vec<Option<u64>>,
    properties: Vec<(String, String)>,
}

impl EffectNode {
    pub closed spec fn spec_id(&self) -> usize {
        self.id
    }

    pub closed spec fn spec_name(&self) -> Seq<char> {
        self.name@
    }

    pub closed spec fn spec_n_inputs(&self) -> nat {
        self.n_inputs as nat
    }

    /// Source of each pass, in declaration order.
    pub closed spec fn sources(&self) -> Seq<Seq<char>> {
        views(self.shader_sources@)
    }

    /// Compiled program of each pass, where it exists.
    pub closed spec fn passes(&self) -> Seq<Option<u64>> {
        self.shader_passes@
    }

    /// The `#property` lines, in order.
    pub closed spec fn properties(&self) -> Seq<(Seq<char>, Seq<char>)> {
        pair_views(self.properties@)
    }

    /// Time of the last frame, in milliseconds.
    pub closed spec fn spec_time(&self) -> u64 {
        self.time
    }

    /// Intensity, in thousandths.
    pub closed spec fn spec_intensity(&self) -> u32 {
        self.intensity
    }

    /// Intensity integrated over time, in thousandths times milliseconds,
    /// kept below `INTEGRAL_PERIOD`.
    pub closed spec fn spec_integral(&self) -> u64 {
        self.intensity_integral
    }

    pub closed spec fn wf(&self) -> bool {
        &&& self.shader_sources@.len() >= 1
        &&& self.shader_passes@.len() == self.shader_sources@.len()
        &&& self.intensity <= 1000
        &&& self.intensity_integral < INTEGRAL_PERIOD
    }

    /// Reads the effect `name` from its program text. A `#property` line
    /// records a key and value; `#buffershader` starts a new pass; any other
    /// line belongs to the current pass. Each pass starts with the common
    /// header and a line marker. The input count is the `inputCount`
    /// property, 1 by default.
    pub fn new(id: usize, name: &str, program: &str) -> (r: Result<EffectNode, EffectError>)
        ensures
            match program_of(program@) {
                Err(e) => r == Err::<EffectNode, EffectError>(e),
                Ok(p) => r matches Ok(node) && {
                    &&& node.wf()
                    &&& node.spec_id() == id
                    &&& node.spec_name() == name@
                    &&& node.sources() == p.0
                    &&& node.properties() == p.1
                    &&& node.spec_n_inputs() == p.2
                    &&& forall|i: int| 0 <= i < node.passes().len() ==> #[trigger] node.passes()[i] is None
                    &&& node.spec_time() == 0
                    &&& node.spec_intensity() == 0
                    &&& node.spec_integral() == 0
                },
            },
    {
        let lines = split_lines(program);
        let ghost ls = split_on(program@, '\n');
        proof {
            reveal_strlit("#property");
            reveal_strlit("#buffershader");
            reveal_strlit("inputCount");
            reveal_strlit("\n");
        }
        let mut done: Vec<String> = Vec::new();
        let mut source = preamble(1);
        let mut properties: Vec<(String, String)> = Vec::new();
        let mut input_count: Option<String> = None;
        let mut i: usize = 0;
        proof {
            assert(views(done@) =~= Seq::<Seq<char>>::empty());
            assert(pair_views(properties@) =~= Seq::<(Seq<char>, Seq<char>)>::empty());
        }
        while i < lines.len()
            invariant
                ls == split_on(program@, '\n'),
                lines@.len() == ls.len(),
                forall|k: int| 0 <= k < lines@.len() ==> #[trigger] lines@[k]@ == ls[k],
                i <= lines@.len(),
                read_lines(ls, i as nat) == Some((views(done@), source@, pair_views(properties@))),
                match input_count {
                    Some(v) => last_value(pair_views(properties@), "inputCount"@) == Some(v@),
                    None => last_value(pair_views(properties@), "inputCount"@) is None,
                },
            decreases lines@.len() - i,
        {
            let ghost st = (views(done@), source@, pair_views(properties@));
            let ok = read_one_line(lines[i].as_str(), i + 1, &mut done, &mut source, &mut properties, &mut input_count);
            if !ok {
                proof {
                    assert(ls[i as int] == lines@[i as int]@);
                    assert(read_lines(ls, (i + 1) as nat) == read_line(st, ls[i as int], (i + 1) as nat));
                    lemma_read_lines_stays_refused(ls, (i + 1) as nat, ls.len());
                }
                return Err(EffectError::PropertyParse);
            }
            proof {
                assert(ls[i as int] == lines@[i as int]@);
                assert(read_lines(ls, (i + 1) as nat) == read_line(st, ls[i as int], (i + 1) as nat));
            }
            i = i + 1;
        }
        proof {
            assert(ls.len() == lines@.len());
        }
        let n_inputs: usize = match input_count {
            None => 1,
            Some(v) => match parse_usize(v.as_str()) {
                Some(n) => n,
                None => {
                    return Err(EffectError::InvalidInputCount);
                },
            },
        };
        let ghost dv = views(done@);
        let ghost sv = source@;
        done.push(source);
        proof {
            assert(views(done@) =~= dv.push(sv));
        }
        let mut passes: Vec<Option<u64>> = Vec::new();
        let mut j: usize = 0;
        while j < done.len()
            invariant
                j <= done@.len(),
                passes@.len() == j,
                forall|k: int| 0 <= k < j ==> #[trigger] passes@[k] is None,
            decreases done@.len() - j,
        {
            passes.push(None);
            j = j + 1;
        }
        Ok(EffectNode {
            id,
            name: String::from_str(name),
            n_inputs,
            time: 0,
            intensity: 0,
            intensity_integral: 0,
            shader_sources: done,
            shader_passes: passes,
            properties,
        })
    }

    pub fn id(&self) -> (r: usize)
        ensures
            r == self.spec_id(),
    {
        self.id
    }

    pub fn name(&self) -> (r: &str)
        ensures
            r@ == self.spec_name(),
    {
        self.name.as_str()
    }

    pub fn n_inputs(&self) -> (r: usize)
        ensures
            r == self.spec_n_inputs(),
    {
        self.n_inputs
    }

    /// Number of passes, each with a buffer of its own.
    pub fn n_buffers(&self) -> (r: usize)
        ensures
            r == self.passes().len(),
    {
        self.shader_passes.len()
    }

    /// Sets the intensity, in thousandths.
    pub fn set_intensity(&mut self, intensity: u32)
        requires
            old(self).wf(),
            intensity <= 1000,
        ensures
            final(self).wf(),
            final(self).spec_intensity() == intensity,
            final(self).sources() == old(self).sources(),
            final(self).passes() == old(self).passes(),
            final(self).spec_n_inputs() == old(self).spec_n_inputs(),
            final(self).spec_id() == old(self).spec_id(),
            final(self).spec_time() == old(self).spec_time(),
            final(self).spec_integral() == old(self).spec_integral(),
    {
        self.intensity = intensity;
    }

    /// The intensity, in thousandths.
    pub fn intensity(&self) -> (r: u32)
        ensures
            r == self.spec_intensity(),
    {
        self.intensity
    }

    /// The intensity integral, in thousandths times milliseconds.
    pub fn intensity_integral(&self) -> (r: u64)
        ensures
            r == self.spec_integral(),
    {
        self.intensity_integral
    }

    /// Time handed to shaders, in milliseconds, wrapped to keep it small.
    pub fn shader_time(&self) -> (r: u64)
        ensures
            r == self.spec_time() % TIME_PERIOD,
    {
        self.time % TIME_PERIOD
    }

    /// Advances to `time` (milliseconds): the integral grows by the elapsed
    /// time (`time` minus the last time, taken modulo `INTEGRAL_PERIOD`)
    /// times the intensity, modulo `INTEGRAL_PERIOD`.
    pub fn pre_render(&mut self, time: u64)
        requires
            old(self).wf(),
        ensures
            advanced(*old(self), *final(self), time),
    {
        let d: u64 = if time >= self.time {
            (time - self.time) % INTEGRAL_PERIOD
        } else {
            (INTEGRAL_PERIOD - (self.time - time) % INTEGRAL_PERIOD) % INTEGRAL_PERIOD
        };
        proof {
            let p = INTEGRAL_PERIOD as int;
            let x = time as int - self.time as int;
            if time < self.time {
                let y = self.time as int - time as int;
                lemma_fundamental_div_mod(y, p);
                let q = y / p;
                let r = y % p;
                assert(x == p * (-(q + 1)) + (p - r)) by (nonlinear_arith)
                    requires y == p * q + r, x == -y;
                lemma_mod_multiples_vanish(-(q + 1), p - r, p);
            }
            assert(d as int == x % p);
            let k = self.intensity as int;
            assert(d * k <= (INTEGRAL_PERIOD as int) * 1000) by (nonlinear_arith)
                requires d < INTEGRAL_PERIOD, 0 <= k <= 1000;
        }
        let prod: u64 = d * (self.intensity as u64);
        let sum: u64 = self.intensity_integral + prod;
        proof {
            let p = INTEGRAL_PERIOD as int;
            let i = self.intensity_integral as int;
            let k = self.intensity as int;
            let x = time as int - self.time as int;
            lemma_mul_mod_noop_left(x, k, p);
            lemma_add_mod_noop_right(i, (x % p) * k, p);
            lemma_add_mod_noop_right(i, x * k, p);
        }
        self.intensity_integral = sum % INTEGRAL_PERIOD;
        self.time = time;
    }

    /// Source text of pass `i`.
    pub fn source(&self, i: usize) -> (r: &str)
        requires
            i < self.sources().len(),
        ensures
            r@ == self.sources()[i as int],
    {
        self.shader_sources[i].as_str()
    }

    /// The passes that have no compiled program yet, in order.
    pub fn passes_to_compile(&self) -> (r: Vec<usize>)
        ensures
            forall|i: usize| #[trigger] r@.contains(i) <==> (i < self.passes().len() && self.passes()[i as int] is None),
            r@.no_duplicates(),
    {
        let mut r: Vec<usize> = Vec::new();
        let mut i: usize = 0;
        while i < self.shader_passes.len()
            invariant
                i <= self.passes().len(),
                forall|j: usize| #[trigger] r@.contains(j) <==> (j < i && self.passes()[j as int] is None),
                forall|k: int| 0 <= k < r@.len() ==> #[trigger] r@[k] < i,
                r@.no_duplicates(),
            decreases self.passes().len() - i,
        {
            if self.shader_passes[i].is_none() {
                let ghost old_r = r@;
                r.push(i);
                proof {
                    assert forall|j: usize| #[trigger] r@.contains(j) <==> (j < i + 1 && self.passes()[j as int] is None) by {
                        if j == i {
                            assert(r@[old_r.len() as int] == i);
                        }
                        if r@.contains(j) && j != i {
                            let k = choose|k: int| 0 <= k < r@.len() && r@[k] == j;
                            assert(old_r[k] == j);
                        }
                        if old_r.contains(j) {
                            let k = choose|k: int| 0 <= k < old_r.len() && old_r[k] == j;
                            assert(r@[k] == j);
                        }
                    }
                }
            } else {
                proof {
                    assert forall|j: usize| #[trigger] r@.contains(j) <==> (j < i + 1 && self.passes()[j as int] is None) by {
                        if r@.contains(j) {
                            let k = choose|k: int| 0 <= k < r@.len() && r@[k] == j;
                        }
                    }
                }
            }
            i = i + 1;
        }
        r
    }

    /// Records the compiled program of pass `i`.
    pub fn set_compiled(&mut self, i: usize, shader: u64)
        requires
            old(self).wf(),
            i < old(self).passes().len(),
        ensures
            final(self).wf(),
            final(self).passes() == old(self).passes().update(i as int, Some(shader)),
            final(self).sources() == old(self).sources(),
            final(self).spec_n_inputs() == old(self).spec_n_inputs(),
            final(self).spec_id() == old(self).spec_id(),
            final(self).spec_time() == old(self).spec_time(),
            final(self).spec_intensity() == old(self).spec_intensity(),
            final(self).spec_integral() == old(self).spec_integral(),
    {
        self.shader_passes.set(i, Some(shader));
    }

    /// Plans this node's frame over its input images and its per-pass
    /// buffers (see `plan_passes`); passes without a compiled program draw
    /// with the pass-through blit.
    pub fn render(&self, inputs: &Vec<Option<u64>>, buffers: &mut Vec<u64>, scratch: &mut u64) -> (r: (
        Vec<PassBinding>,
        u64,
    ))
        requires
            self.wf(),
            inputs@.len() == self.spec_n_inputs(),
            old(buffers)@.len() == self.passes().len(),
        ensures
            final(buffers)@ == buffers_after(old(buffers)@, *old(scratch)),
            *final(scratch) == old(buffers)@[0],
            r.1 == final(buffers)@[0],
            planned(self.passes(), inputs@, old(buffers)@, *old(scratch), r.0@),
            self.passes().len() >= 1,
    {
        plan_passes(&self.shader_passes, inputs, buffers, scratch)
    }
}

} // verus!
