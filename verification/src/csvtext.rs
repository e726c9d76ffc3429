//! The CSV surface of the feed, character by character.
//!
//! The feed is a comma-separated table: records are separated by line
//! breaks (a line feed, optionally preceded by a carriage return), fields
//! by commas, and a field may be quoted with double quotes, a literal
//! quote written as two quotes. A line whose quoting is broken parses to
//! nothing and is skipped by the decoder; quoted line breaks are not part
//! of this feed's dialect. Coordinates are decimal numbers, parsed into
//! integer microdegrees, truncating beyond the sixth fractional digit.

use vstd::prelude::*;

verus! {

// ---------------------------------------------------------------------
// Splitting the body into lines.
// ---------------------------------------------------------------------

/// State of the line splitter: finished lines, and the line being read.
pub struct LineState {
    pub done: Seq<Seq<char>>,
    pub cur: Seq<char>,
}

/// A finished line joins the output if anything remains of it once a
/// trailing carriage return is dropped; blank lines separate nothing.
pub open spec fn push_line(done: Seq<Seq<char>>, cur: Seq<char>) -> Seq<Seq<char>> {
    let line = if cur.len() > 0 && cur.last() == '\r' {
        cur.drop_last()
    } else {
        cur
    };
    if line.len() > 0 {
        done.push(line)
    } else {
        done
    }
}

/// One character advances the line splitter.
pub open spec fn line_step(st: LineState, c: char) -> LineState {
    if c == '\n' {
        LineState { done: push_line(st.done, st.cur), cur: Seq::empty() }
    } else {
        LineState { done: st.done, cur: st.cur.push(c) }
    }
}

/// The line splitter run over a whole character sequence.
pub open spec fn lines_fold(st: LineState, s: Seq<char>) -> LineState
    decreases s.len(),
{
    if s.len() == 0 {
        st
    } else {
        lines_fold(line_step(st, s[0]), s.drop_first())
    }
}

/// The non-blank lines of `s`, in order, without their line breaks.
pub open spec fn split_lines(s: Seq<char>) -> Seq<Seq<char>> {
    let st = lines_fold((LineState { done: Seq::empty(), cur: Seq::empty() }), s);
    push_line(st.done, st.cur)
}

/// The views of a vector of character vectors.
pub open spec fn views_of(vs: Seq<Vec<char>>) -> Seq<Seq<char>> {
    vs.map_values(|v: Vec<char>| v@)
}

/// Pushing onto the vector pushes the view.
pub proof fn lemma_views_push(vs: Seq<Vec<char>>, v: Vec<char>)
    ensures
        views_of(vs.push(v)) =~= views_of(vs).push(v@),
{
    assert forall|i: int| 0 <= i < vs.len() + 1
        implies #[trigger] views_of(vs.push(v))[i] == views_of(vs).push(v@)[i] by {
        if i < vs.len() {
            assert(vs.push(v)[i] == vs[i]);
        } else {
            assert(vs.push(v)[i] == v);
        }
    }
}

/// Close the line under construction, dropping a trailing carriage return
/// and discarding the line if nothing remains.
fn finish_line(done: &mut Vec<Vec<char>>, line: Vec<char>)
    ensures
        views_of(final(done)@) == push_line(views_of(old(done)@), line@),
{
    let ghost l0: Seq<char> = line@;
    let mut line = line;
    if line.len() > 0 && line[line.len() - 1] == '\r' {
        line.pop();
        proof {
            assert(line@ =~= l0.drop_last());
        }
    }
    if line.len() > 0 {
        let ghost d0: Seq<Vec<char>> = done@;
        let ghost lv: Seq<char> = line@;
        done.push(line);
        proof {
            lemma_views_push(d0, done@.last());
            assert(done@ =~= d0.push(done@.last()));
            assert(views_of(done@) =~= views_of(d0).push(lv));
        }
    }
}

/// Split the body into its non-blank lines.
pub fn split_lines_exec(v: &Vec<char>) -> (r: Vec<Vec<char>>)
    ensures
        views_of(r@) == split_lines(v@),
{
    let ghost init: LineState = LineState { done: Seq::empty(), cur: Seq::empty() };
    let mut done: Vec<Vec<char>> = Vec::new();
    let mut cur: Vec<char> = Vec::new();
    let n = v.len();
    proof {
        assert(views_of(done@) =~= Seq::<Seq<char>>::empty());
        assert(v@.skip(0) =~= v@);
    }
    for i in 0..n
        invariant
            n == v@.len(),
            lines_fold((LineState { done: views_of(done@), cur: cur@ }), v@.skip(i as int))
                == lines_fold(init, v@),
    {
        let ghost st0: LineState = LineState { done: views_of(done@), cur: cur@ };
        proof {
            assert(v@.skip(i as int)[0] == v@[i as int]);
            assert(v@.skip(i as int).drop_first() =~= v@.skip(i + 1));
            assert(lines_fold(st0, v@.skip(i as int))
                == lines_fold(line_step(st0, v@[i as int]), v@.skip(i + 1)));
        }
        let c = v[i];
        if c == '\n' {
            finish_line(&mut done, cur);
            cur = Vec::new();
            proof {
                assert(cur@ =~= Seq::<char>::empty());
            }
        } else {
            cur.push(c);
        }
        proof {
            assert((LineState { done: views_of(done@), cur: cur@ })
                == line_step(st0, v@[i as int]));
        }
    }
    proof {
        assert(v@.skip(n as int) =~= Seq::<char>::empty());
        assert(lines_fold((LineState { done: views_of(done@), cur: cur@ }),
            Seq::<char>::empty()) == (LineState { done: views_of(done@), cur: cur@ }));
    }
    let ghost st_end: LineState = LineState { done: views_of(done@), cur: cur@ };
    finish_line(&mut done, cur);
    proof {
        assert(views_of(done@) == push_line(st_end.done, st_end.cur));
    }
    done
}

// ---------------------------------------------------------------------
// Splitting one line into fields.
// ---------------------------------------------------------------------

/// Where the field reader stands within a line.
#[derive(Clone, Copy, PartialEq, Eq, Structural, Debug)]
pub enum FieldMode {
    /// At the start of a field, before its first character.
    AtFieldStart,
    /// Inside an unquoted field.
    Unquoted,
    /// Inside a quoted field, after the opening quote.
    Quoted,
    /// Just after a quote inside a quoted field: either the field's end or
    /// the first half of a doubled (escaped) quote.
    QuoteClosed,
}

/// State of the field reader: finished fields, the field being read, and
/// the reader's mode.
pub struct FieldState {
    pub done: Seq<Seq<char>>,
    pub cur: Seq<char>,
    pub mode: FieldMode,
}

/// One character advances the field reader; `None` is a malformed line
/// (a stray quote, or anything but a comma after a closing quote).
pub open spec fn field_step(st: FieldState, c: char) -> Option<FieldState> {
    match st.mode {
        FieldMode::AtFieldStart => {
            if c == '"' {
                Some((FieldState { done: st.done, cur: st.cur, mode: FieldMode::Quoted }))
            } else if c == ',' {
                Some(
                    (FieldState {
                        done: st.done.push(st.cur),
                        cur: Seq::empty(),
                        mode: FieldMode::AtFieldStart,
                    }),
                )
            } else {
                Some((FieldState { done: st.done, cur: st.cur.push(c), mode: FieldMode::Unquoted }))
            }
        },
        FieldMode::Unquoted => {
            if c == ',' {
                Some(
                    (FieldState {
                        done: st.done.push(st.cur),
                        cur: Seq::empty(),
                        mode: FieldMode::AtFieldStart,
                    }),
                )
            } else if c == '"' {
                None
            } else {
                Some((FieldState { done: st.done, cur: st.cur.push(c), mode: FieldMode::Unquoted }))
            }
        },
        FieldMode::Quoted => {
            if c == '"' {
                Some((FieldState { done: st.done, cur: st.cur, mode: FieldMode::QuoteClosed }))
            } else {
                Some((FieldState { done: st.done, cur: st.cur.push(c), mode: FieldMode::Quoted }))
            }
        },
        FieldMode::QuoteClosed => {
            if c == '"' {
                Some((FieldState { done: st.done, cur: st.cur.push('"'), mode: FieldMode::Quoted }))
            } else if c == ',' {
                Some(
                    (FieldState {
                        done: st.done.push(st.cur),
                        cur: Seq::empty(),
                        mode: FieldMode::AtFieldStart,
                    }),
                )
            } else {
                None
            }
        },
    }
}

/// The field reader run over a whole line; a malformed prefix poisons the
/// rest.
pub open spec fn fields_fold(st: Option<FieldState>, s: Seq<char>) -> Option<FieldState>
    decreases s.len(),
{
    if s.len() == 0 {
        st
    } else {
        match st {
            Option::None => Option::None,
            Option::Some(st0) => fields_fold(field_step(st0, s[0]), s.drop_first()),
        }
    }
}

/// A poisoned fold stays poisoned.
pub proof fn lemma_fields_fold_none(s: Seq<char>)
    ensures
        fields_fold(Option::None, s) == Option::<FieldState>::None,
    decreases s.len(),
{
    if s.len() > 0 {
        lemma_fields_fold_none(s.drop_first());
    }
}

/// The fields of one line, or `None` if its quoting is malformed (which
/// includes a quoted field that never closes).
pub open spec fn parse_fields(line: Seq<char>) -> Option<Seq<Seq<char>>> {
    let init = FieldState { done: Seq::empty(), cur: Seq::empty(), mode: FieldMode::AtFieldStart };
    match fields_fold(Option::Some(init), line) {
        Option::None => Option::None,
        Option::Some(st) => {
            if st.mode == FieldMode::Quoted {
                Option::None
            } else {
                Option::Some(st.done.push(st.cur))
            }
        },
    }
}

/// Split one line into its fields.
pub fn parse_fields_exec(line: &Vec<char>) -> (r: Option<Vec<Vec<char>>>)
    ensures
        match r {
            Option::Some(fs) => parse_fields(line@) == Option::Some(views_of(fs@)),
            Option::None => parse_fields(line@) == Option::<Seq<Seq<char>>>::None,
        },
{
    let ghost init: FieldState = FieldState {
        done: Seq::empty(),
        cur: Seq::empty(),
        mode: FieldMode::AtFieldStart,
    };
    let mut done: Vec<Vec<char>> = Vec::new();
    let mut cur: Vec<char> = Vec::new();
    let mut mode = FieldMode::AtFieldStart;
    let n = line.len();
    proof {
        assert(views_of(done@) =~= Seq::<Seq<char>>::empty());
        assert(line@.skip(0) =~= line@);
    }
    for i in 0..n
        invariant
            n == line@.len(),
            init == (FieldState {
                done: Seq::<Seq<char>>::empty(),
                cur: Seq::<char>::empty(),
                mode: FieldMode::AtFieldStart,
            }),
            fields_fold(
                Option::Some((FieldState { done: views_of(done@), cur: cur@, mode })),
                line@.skip(i as int),
            ) == fields_fold(Option::Some(init), line@),
    {
        let ghost st0: FieldState = FieldState { done: views_of(done@), cur: cur@, mode };
        proof {
            assert(line@.skip(i as int)[0] == line@[i as int]);
            assert(line@.skip(i as int).drop_first() =~= line@.skip(i + 1));
            assert(fields_fold(Option::Some(st0), line@.skip(i as int))
                == fields_fold(field_step(st0, line@[i as int]), line@.skip(i + 1)));
        }
        let c = line[i];
        let malformed: bool = match mode {
            FieldMode::AtFieldStart => {
                if c == '"' {
                    mode = FieldMode::Quoted;
                    false
                } else if c == ',' {
                    let ghost d0: Seq<Vec<char>> = done@;
                    done.push(cur);
                    cur = Vec::new();
                    proof {
                        lemma_views_push(d0, done@.last());
                        assert(done@ =~= d0.push(done@.last()));
                        assert(views_of(done@) =~= views_of(d0).push(st0.cur));
                        assert(cur@ =~= Seq::<char>::empty());
                    }
                    false
                } else {
                    cur.push(c);
                    mode = FieldMode::Unquoted;
                    false
                }
            },
            FieldMode::Unquoted => {
                if c == ',' {
                    let ghost d0: Seq<Vec<char>> = done@;
                    done.push(cur);
                    cur = Vec::new();
                    mode = FieldMode::AtFieldStart;
                    proof {
                        lemma_views_push(d0, done@.last());
                        assert(done@ =~= d0.push(done@.last()));
                        assert(views_of(done@) =~= views_of(d0).push(st0.cur));
                        assert(cur@ =~= Seq::<char>::empty());
                    }
                    false
                } else if c == '"' {
                    true
                } else {
                    cur.push(c);
                    false
                }
            },
            FieldMode::Quoted => {
                if c == '"' {
                    mode = FieldMode::QuoteClosed;
                } else {
                    cur.push(c);
                }
                false
            },
            FieldMode::QuoteClosed => {
                if c == '"' {
                    cur.push('"');
                    mode = FieldMode::Quoted;
                    false
                } else if c == ',' {
                    let ghost d0: Seq<Vec<char>> = done@;
                    done.push(cur);
                    cur = Vec::new();
                    mode = FieldMode::AtFieldStart;
                    proof {
                        lemma_views_push(d0, done@.last());
                        assert(done@ =~= d0.push(done@.last()));
                        assert(views_of(done@) =~= views_of(d0).push(st0.cur));
                        assert(cur@ =~= Seq::<char>::empty());
                    }
                    false
                } else {
                    true
                }
            },
        };
        if malformed {
            proof {
                assert(field_step(st0, line@[i as int]) == Option::<FieldState>::None);
                lemma_fields_fold_none(line@.skip(i + 1));
                assert(fields_fold(Option::Some(init), line@) == Option::<FieldState>::None);
            }
            return Option::None;
        }
        proof {
            assert(Option::Some((FieldState { done: views_of(done@), cur: cur@, mode }))
                == field_step(st0, line@[i as int]));
        }
    }
    proof {
        assert(line@.skip(n as int) =~= Seq::<char>::empty());
    }
    let ghost st_end: FieldState = FieldState { done: views_of(done@), cur: cur@, mode };
    proof {
        assert(fields_fold(Option::Some(init), line@) == Option::Some(st_end));
    }
    match mode {
        FieldMode::Quoted => Option::None,
        _ => {
            let ghost d0: Seq<Vec<char>> = done@;
            let ghost cv: Seq<char> = cur@;
            done.push(cur);
            proof {
                lemma_views_push(d0, done@.last());
                assert(done@ =~= d0.push(done@.last()));
                assert(views_of(done@) =~= views_of(d0).push(cv));
            }
            Option::Some(done)
        },
    }
}

// ---------------------------------------------------------------------
// Decimal coordinates, in microdegrees.
// ---------------------------------------------------------------------

/// Powers of ten.
pub open spec fn pow10(n: nat) -> int
    decreases n,
{
    if n == 0 {
        1
    } else {
        10 * pow10((n - 1) as nat)
    }
}

/// A decimal digit.
pub open spec fn is_digit(c: char) -> bool {
    48 <= c as u32 <= 57
}

/// The value of a decimal digit.
pub open spec fn digit_val(c: char) -> int {
    c as u32 - 48
}

/// Every character is a decimal digit.
pub open spec fn all_digits(s: Seq<char>) -> bool {
    forall|i: int| 0 <= i < s.len() ==> is_digit(#[trigger] s[i])
}

/// The value of a digit string, most significant first.
pub open spec fn digits_val(s: Seq<char>) -> int
    decreases s.len(),
{
    if s.len() == 0 {
        0
    } else {
        digits_val(s.drop_last()) * 10 + digit_val(s.last())
    }
}

/// The digits before the first point.
pub open spec fn int_digits(s: Seq<char>) -> Seq<char>
    decreases s.len(),
{
    if s.len() == 0 || s[0] == '.' {
        Seq::empty()
    } else {
        seq![s[0]] + int_digits(s.drop_first())
    }
}

/// Whether the string contains a point at all.
pub open spec fn has_dot(s: Seq<char>) -> bool
    decreases s.len(),
{
    s.len() > 0 && (s[0] == '.' || has_dot(s.drop_first()))
}

/// What follows the first point.
pub open spec fn frac_digits(s: Seq<char>) -> Seq<char>
    decreases s.len(),
{
    if s.len() == 0 {
        Seq::empty()
    } else if s[0] == '.' {
        s.drop_first()
    } else {
        frac_digits(s.drop_first())
    }
}

/// Characterize the split at the first point by its index: everything
/// before `j` is the integer part, everything after it the fraction.
pub proof fn lemma_dot_split(s: Seq<char>, j: int)
    requires
        0 <= j <= s.len(),
        forall|t: int| 0 <= t < j ==> (#[trigger] s[t]) != '.',
        j < s.len() ==> s[j] == '.',
    ensures
        j < s.len() ==> has_dot(s) && int_digits(s) =~= s.subrange(0, j) && frac_digits(s)
            =~= s.subrange(j + 1, s.len() as int),
        j == s.len() ==> !has_dot(s) && int_digits(s) =~= s,
    decreases s.len(),
{
    if s.len() == 0 {
        assert(int_digits(s) =~= s);
    } else if j == 0 {
        if j < s.len() {
            assert(s.drop_first() =~= s.subrange(1, s.len() as int));
        }
    } else {
        let sd = s.drop_first();
        assert(forall|t: int| 0 <= t < j - 1 ==> (#[trigger] sd[t]) == s[t + 1] && sd[t] != '.');
        lemma_dot_split(sd, j - 1);
        if j < s.len() {
            assert(int_digits(s) =~= seq![s[0]] + sd.subrange(0, j - 1));
            assert(int_digits(s) =~= s.subrange(0, j));
            assert(frac_digits(s) =~= sd.subrange(j - 1 + 1, sd.len() as int));
            assert(frac_digits(s) =~= s.subrange(j + 1, s.len() as int));
        } else {
            assert(int_digits(s) =~= seq![s[0]] + sd);
            assert(int_digits(s) =~= s);
        }
    }
}

/// A fraction's first six digits, scaled so that six digits are always
/// counted: digits beyond the sixth are dropped, missing ones count zero.
pub open spec fn frac_scaled(fp: Seq<char>) -> int {
    let k = if fp.len() <= 6 {
        fp.len() as int
    } else {
        6
    };
    digits_val(fp.take(k)) * pow10((6 - k) as nat)
}

/// The value, in microdegrees, of an unsigned decimal coordinate: one to
/// nine digits, optionally followed by a point and at least one more
/// digit; fractional digits beyond the sixth are read but do not count.
pub open spec fn parse_udeg_pos(s: Seq<char>) -> Option<int> {
    let ip = int_digits(s);
    let fp = if has_dot(s) {
        frac_digits(s)
    } else {
        Seq::<char>::empty()
    };
    if 1 <= ip.len() <= 9 && all_digits(ip) && (has_dot(s) ==> fp.len() >= 1) && all_digits(fp) {
        Option::Some(digits_val(ip) * 1_000_000 + frac_scaled(fp))
    } else {
        Option::None
    }
}

/// The value of a decimal coordinate, with an optional leading minus.
pub open spec fn parse_udeg(s: Seq<char>) -> Option<int> {
    if s.len() > 0 && s[0] == '-' {
        match parse_udeg_pos(s.drop_first()) {
            Option::Some(v) => Option::Some(-v),
            Option::None => Option::None,
        }
    } else {
        parse_udeg_pos(s)
    }
}

/// Powers of ten are at least one.
pub proof fn lemma_pow10_pos(n: nat)
    ensures
        pow10(n) >= 1,
    decreases n,
{
    if n > 0 {
        lemma_pow10_pos((n - 1) as nat);
    }
}

/// Powers of ten grow with the exponent.
pub proof fn lemma_pow10_mono(a: nat, b: nat)
    requires
        a <= b,
    ensures
        pow10(a) <= pow10(b),
    decreases b,
{
    if a < b {
        lemma_pow10_mono(a, (b - 1) as nat);
        lemma_pow10_pos((b - 1) as nat);
    }
}

/// Index of the first point at or after `from`, or the length if none.
fn find_dot(field: &Vec<char>, from: usize) -> (j: usize)
    requires
        from <= field.len(),
    ensures
        from <= j <= field.len(),
        forall|t: int| from <= t < j ==> (#[trigger] field@[t]) != '.',
        j < field.len() ==> field@[j as int] == '.',
{
    let n = field.len();
    for t in from..n
        invariant
            n == field.len(),
            from <= t <= n,
            forall|u: int| from <= u < t ==> (#[trigger] field@[u]) != '.',
    {
        if field[t] == '.' {
            return t;
        }
    }
    n
}

/// Read up to nine digits as their value, or nothing on a non-digit.
fn parse_digits(field: &Vec<char>, from: usize, to: usize) -> (r: Option<i64>)
    requires
        from <= to <= field.len(),
        to - from <= 9,
    ensures
        match r {
            Option::Some(v) => all_digits(field@.subrange(from as int, to as int)) && v
                == digits_val(field@.subrange(from as int, to as int)) && 0 <= v < 1_000_000_000,
            Option::None => !all_digits(field@.subrange(from as int, to as int)),
        },
{
    let mut acc: i64 = 0;
    for t in from..to
        invariant
            from <= t <= to <= field.len(),
            to - from <= 9,
            all_digits(field@.subrange(from as int, t as int)),
            acc == digits_val(field@.subrange(from as int, t as int)),
            0 <= acc < pow10((t - from) as nat),
    {
        let c = field[t];
        let cu = c as u32;
        if cu < 48 || cu > 57 {
            proof {
                assert(field@.subrange(from as int, to as int)[t - from] == field@[t as int]);
                assert(!is_digit(field@[t as int]));
            }
            return Option::None;
        }
        proof {
            assert(field@.subrange(from as int, t + 1).drop_last()
                =~= field@.subrange(from as int, t as int));
            assert(field@.subrange(from as int, t + 1).last() == field@[t as int]);
            lemma_pow10_mono(((t + 1) - from) as nat, 9);
            assert(pow10(9) == 1_000_000_000) by {
                reveal_with_fuel(pow10, 10);
            }
            assert(pow10(((t + 1) - from) as nat) == 10 * pow10((t - from) as nat));
        }
        acc = acc * 10 + ((cu - 48) as i64);
    }
    proof {
        lemma_pow10_mono((to - from) as nat, 9);
        assert(pow10(9) == 1_000_000_000) by {
            reveal_with_fuel(pow10, 10);
        }
    }
    Option::Some(acc)
}

/// Read a fraction as its first six digits' value scaled to microdegrees,
/// or nothing on a non-digit anywhere in it.
fn parse_frac(field: &Vec<char>, from: usize, to: usize) -> (r: Option<i64>)
    requires
        from <= to <= field.len(),
    ensures
        match r {
            Option::Some(v) => all_digits(field@.subrange(from as int, to as int)) && v
                == frac_scaled(field@.subrange(from as int, to as int)) && 0 <= v < 1_000_000,
            Option::None => !all_digits(field@.subrange(from as int, to as int)),
        },
{
    let ghost fp: Seq<char> = field@.subrange(from as int, to as int);
    let len = to - from;
    let k: usize = if len <= 6 {
        len
    } else {
        6
    };
    let mut acc: i64 = 0;
    for t in from..from + k
        invariant
            from <= t <= from + k,
            k <= len,
            k <= 6,
            from + len == to <= field.len(),
            fp == field@.subrange(from as int, to as int),
            all_digits(field@.subrange(from as int, t as int)),
            acc == digits_val(field@.subrange(from as int, t as int)),
            0 <= acc < pow10((t - from) as nat),
    {
        let c = field[t];
        let cu = c as u32;
        if cu < 48 || cu > 57 {
            proof {
                assert(fp[t - from] == field@[t as int]);
                assert(!is_digit(field@[t as int]));
            }
            return Option::None;
        }
        proof {
            assert(field@.subrange(from as int, t + 1).drop_last()
                =~= field@.subrange(from as int, t as int));
            assert(field@.subrange(from as int, t + 1).last() == field@[t as int]);
            lemma_pow10_mono(((t + 1) - from) as nat, 6);
            assert(pow10(6) == 1_000_000) by {
                reveal_with_fuel(pow10, 7);
            }
            assert(pow10(((t + 1) - from) as nat) == 10 * pow10((t - from) as nat));
        }
        acc = acc * 10 + ((cu - 48) as i64);
    }
    proof {
        assert(fp.take(k as int) =~= field@.subrange(from as int, (from + k) as int));
    }
    for t in from + k..to
        invariant
            from + k <= t <= to <= field.len(),
            k <= 6,
            k <= len,
            from + len == to,
            fp == field@.subrange(from as int, to as int),
            acc == digits_val(fp.take(k as int)),
            0 <= acc < pow10(k as nat),
            all_digits(field@.subrange(from as int, t as int)),
    {
        let c = field[t];
        let cu = c as u32;
        if cu < 48 || cu > 57 {
            proof {
                assert(fp[t - from] == field@[t as int]);
                assert(!is_digit(field@[t as int]));
            }
            return Option::None;
        }
        proof {
            assert(field@.subrange(from as int, t + 1).drop_last()
                =~= field@.subrange(from as int, t as int));
            assert(field@.subrange(from as int, t + 1).last() == field@[t as int]);
            assert(is_digit(field@[t as int]));
        }
    }
    let ghost dv: int = digits_val(fp.take(k as int));
    let mut m: usize = k;
    proof {
        assert(pow10((m - k) as nat) == 1);
        assert(dv * 1 == dv) by (nonlinear_arith);
    }
    while m < 6
        invariant
            k <= m <= 6,
            dv == digits_val(fp.take(k as int)),
            acc == dv * pow10((m - k) as nat),
            0 <= acc < pow10(m as nat),
        decreases 6 - m,
    {
        proof {
            assert(pow10(((m + 1) - k) as nat) == 10 * pow10((m - k) as nat));
            assert(pow10((m + 1) as nat) == 10 * pow10(m as nat));
            assert(dv * (10 * pow10((m - k) as nat)) == (dv * pow10((m - k) as nat)) * 10)
                by (nonlinear_arith);
            lemma_pow10_mono((m + 1) as nat, 6);
            assert(pow10(6) == 1_000_000) by {
                reveal_with_fuel(pow10, 7);
            }
        }
        acc = acc * 10;
        m = m + 1;
    }
    proof {
        assert(all_digits(fp));
        assert((if fp.len() <= 6 {
            fp.len() as int
        } else {
            6
        }) == k as int);
        assert(pow10(6) == 1_000_000) by {
            reveal_with_fuel(pow10, 7);
        }
        lemma_pow10_mono((6 - k as int) as nat, 6);
        assert(acc == frac_scaled(fp));
    }
    Option::Some(acc)
}

/// Parse one coordinate field into microdegrees.
pub fn parse_udeg_exec(field: &Vec<char>) -> (r: Option<i64>)
    ensures
        match r {
            Option::Some(v) => parse_udeg(field@) == Option::Some(v as int),
            Option::None => parse_udeg(field@) == Option::<int>::None,
        },
{
    let n = field.len();
    let neg = n > 0 && field[0] == '-';
    let start: usize = if neg {
        1
    } else {
        0
    };
    let ghost sp: Seq<char> = field@.skip(start as int);
    proof {
        if !neg {
            assert(sp =~= field@);
        } else {
            assert(sp =~= field@.drop_first());
        }
    }
    let dotj = find_dot(field, start);
    let ghost j: int = dotj - start;
    proof {
        assert forall|t: int| 0 <= t < j implies (#[trigger] sp[t]) != '.' by {
            assert(sp[t] == field@[t + start]);
        }
        if dotj < n {
            assert(sp[j] == field@[dotj as int]);
        }
        lemma_dot_split(sp, j);
    }
    if dotj - start < 1 || dotj - start > 9 {
        return Option::None;
    }
    proof {
        assert(int_digits(sp) =~= field@.subrange(start as int, dotj as int));
    }
    let int_acc = match parse_digits(field, start, dotj) {
        Option::Some(v) => v,
        Option::None => {
            return Option::None;
        },
    };
    let frac_acc: i64 = if dotj < n {
        proof {
            assert(frac_digits(sp) =~= field@.subrange(dotj + 1, n as int));
        }
        if n - dotj - 1 < 1 {
            return Option::None;
        }
        match parse_frac(field, dotj + 1, n) {
            Option::Some(v) => v,
            Option::None => {
                return Option::None;
            },
        }
    } else {
        proof {
            assert(frac_scaled(Seq::<char>::empty()) == 0);
        }
        0
    };
    let v: i64 = int_acc * 1_000_000 + frac_acc;
    if neg {
        Option::Some(-v)
    } else {
        Option::Some(v)
    }
}

} // verus!
