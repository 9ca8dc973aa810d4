//! The canonical text of a profile: one line for each comment, the
//! period, the time and the duration, then the samples, the locations
//! and the mappings.

use crate::keyed::lookup;
use crate::profile::function::FunctionView;
use crate::profile::line::{Line, LineView};
use crate::profile::location::{Location, LocationView};
use crate::profile::mapping::{Mapping, MappingView};
use crate::profile::sample::{Sample, SampleView};
use crate::profile::value_type::ValueTypeView;
use crate::profile::{Profile, ProfileView};
use crate::text::{
    dec_digits, dec_text, digit_char, hex_text, join, join_texts, pad_left, push_dec,
    push_digit, push_hex, push_padded, push_signed, signed_string,
};
use vstd::prelude::*;
use vstd::string::StringExecFns;

verus! {

/// The marks of the capabilities of a mapping.
pub open spec fn flags_text(m: MappingView) -> Seq<char> {
    (if m.has_function {
        "[FN]"@
    } else {
        Seq::empty()
    }) + (if m.has_filenames {
        "[FL]"@
    } else {
        Seq::empty()
    }) + (if m.has_line_numbers {
        "[LN]"@
    } else {
        Seq::empty()
    }) + (if m.has_inline_frames {
        "[IN]"@
    } else {
        Seq::empty()
    })
}

/// The line of a mapping: id, then start, limit and offset in
/// hexadecimal notation, file name, build id, and the marks of its
/// capabilities.
pub open spec fn mapping_text(m: MappingView) -> Seq<char> {
    dec_text(m.id as int) + ": 0x"@ + hex_text(m.memory_start as nat) + "/0x"@ + hex_text(
        m.memory_limit as nat,
    ) + "/0x"@ + hex_text(m.memory_offset as nat) + " "@ + m.filename + " "@ + m.build_id + " "@
        + flags_text(m)
}

impl Mapping {
    /// The line of the mapping in the text of a profile.
    pub fn to_string(&self) -> (r: String)
        ensures
            r@ == mapping_text(self@),
    {
        let mut s = String::new();
        push_dec(&mut s, self.id);
        s.append(": 0x");
        push_hex(&mut s, self.memory_start);
        s.append("/0x");
        push_hex(&mut s, self.memory_limit);
        s.append("/0x");
        push_hex(&mut s, self.memory_offset);
        s.append(" ");
        s.append(self.filename.as_str());
        s.append(" ");
        s.append(self.build_id.as_str());
        s.append(" ");
        let ghost body = s@;
        assert(body =~= dec_text(self.id as int) + ": 0x"@ + hex_text(self.memory_start as nat)
            + "/0x"@ + hex_text(self.memory_limit as nat) + "/0x"@ + hex_text(
            self.memory_offset as nat,
        ) + " "@ + self.filename@ + " "@ + self.build_id@ + " "@);
        if self.has_function {
            s.append("[FN]");
        }
        if self.has_filenames {
            s.append("[FL]");
        }
        if self.has_line_numbers {
            s.append("[LN]");
        }
        if self.has_inline_frames {
            s.append("[IN]");
        }
        assert(s@ =~= body + flags_text(self@));
        s
    }
}

/// The text of a frame: name, file, line and start line of its function,
/// and the system name in brackets where it is not the name; two question
/// marks for a frame without function.
pub open spec fn line_body(ln: LineView) -> Seq<char> {
    if ln.function == FunctionView::empty() {
        "??"@
    } else {
        ln.function.name + " "@ + ln.function.filename + ":"@ + dec_text(ln.line as int) + " s="@
            + dec_text(ln.function.start_line as int) + (if ln.function.name
            != ln.function.system_name {
            "("@ + ln.function.system_name + ")"@
        } else {
            Seq::empty()
        })
    }
}

/// What every line of a location begins with: the id in six columns,
/// the address in hexadecimal notation, the id of the mapping where there
/// is one, and the mark of folding.
pub open spec fn location_prefix(l: LocationView) -> Seq<char> {
    pad_left(dec_text(l.id as int), 6) + ": 0x"@ + hex_text(l.address as nat) + " "@ + (match l.mapping {
        Some(m) => "M="@ + dec_text(m.id as int) + " "@,
        None => Seq::empty(),
    }) + (if l.is_folder {
        "[F] "@
    } else {
        Seq::empty()
    })
}

/// The lines of the first `n` frames of a location: the first begins
/// with the prefix, the others with thirteen spaces.
pub open spec fn location_lines(l: LocationView, n: nat) -> Seq<Seq<char>>
    decreases n,
{
    if n == 0 {
        Seq::empty()
    } else {
        location_lines(l, (n - 1) as nat).push(
            (if n == 1 {
                location_prefix(l)
            } else {
                "             "@
            }) + line_body(l.line[n - 1]),
        )
    }
}

/// The lines of a location: the prefix alone where it has no frame,
/// otherwise one line for each frame.
pub open spec fn location_text(l: LocationView) -> Seq<char> {
    if l.line.len() == 0 {
        location_prefix(l)
    } else {
        join(location_lines(l, l.line.len()), "\n"@)
    }
}

impl Line {
    /// The text of the frame in the line of a location.
    pub fn body_string(&self) -> (r: String)
        ensures
            r@ == line_body(self@),
    {
        if self.function.is_default() {
            return String::from_str("??");
        }
        let f = &self.function;
        let mut s = f.name.clone();
        s.append(" ");
        s.append(f.filename.as_str());
        s.append(":");
        push_signed(&mut s, self.line);
        s.append(" s=");
        push_signed(&mut s, f.start_line);
        let ghost body = s@;
        assert(body =~= f.name@ + " "@ + f.filename@ + ":"@ + dec_text(self.line as int) + " s="@
            + dec_text(f.start_line as int));
        if f.name != f.system_name {
            s.append("(");
            s.append(f.system_name.as_str());
            s.append(")");
            assert(s@ =~= body + ("("@ + f.system_name@ + ")"@));
        } else {
            assert(s@ =~= body + Seq::<char>::empty());
        }
        s
    }
}

impl Location {
    /// What every line of the location begins with.
    pub fn prefix_string(&self) -> (r: String)
        ensures
            r@ == location_prefix(self@),
    {
        let mut s = String::new();
        let id = crate::text::dec_string(self.id);
        push_padded(&mut s, id.as_str(), 6);
        s.append(": 0x");
        push_hex(&mut s, self.address);
        s.append(" ");
        let ghost head = s@;
        assert(head =~= pad_left(dec_text(self.id as int), 6) + ": 0x"@ + hex_text(
            self.address as nat,
        ) + " "@);
        match &self.mapping {
            Some(m) => {
                s.append("M=");
                push_dec(&mut s, m.id);
                s.append(" ");
                assert(s@ =~= head + ("M="@ + dec_text(m.id as int) + " "@));
            },
            None => {
                assert(s@ =~= head + Seq::<char>::empty());
            },
        }
        let ghost middle = s@;
        if self.is_folder {
            s.append("[F] ");
        } else {
            assert(s@ =~= middle + Seq::<char>::empty());
        }
        s
    }

    /// The lines of the location in the text of a profile.
    pub fn to_string(&self) -> (r: String)
        ensures
            r@ == location_text(self@),
    {
        let prefix = self.prefix_string();
        if self.line.len() == 0 {
            return prefix;
        }
        let mut lines: Vec<String> = Vec::new();
        let mut i: usize = 0;
        assert(lines.deep_view() =~= location_lines(self@, 0));
        while i < self.line.len()
            invariant
                i <= self.line.len(),
                prefix@ == location_prefix(self@),
                lines.deep_view() == location_lines(self@, i as nat),
            decreases self.line.len() - i,
        {
            let mut s = if i == 0 {
                prefix.clone()
            } else {
                String::from_str("             ")
            };
            let body = self.line[i].body_string();
            assert(self@.line[i as int] == self.line[i as int]@);
            s.append(body.as_str());
            let ghost before = lines.deep_view();
            lines.push(s);
            assert(lines.deep_view() =~= before.push(s@));
            i += 1;
        }
        join_texts(&lines, "\n")
    }
}

/// The first `n` values of a sample, each after a space and in ten
/// columns.
pub open spec fn values_text(values: Seq<i64>, n: nat) -> Seq<char>
    decreases n,
{
    if n == 0 {
        Seq::empty()
    } else {
        values_text(values, (n - 1) as nat) + " "@ + pad_left(dec_text(values[n - 1] as int), 10)
    }
}

/// The ids of the locations of a sample.
pub open spec fn stack_ids(locations: Seq<LocationView>) -> Seq<Seq<char>> {
    locations.map_values(|l: LocationView| dec_text(l.id as int))
}

/// The first `n` texts of a list, one after the other.
pub open spec fn texts_run(parts: Seq<Seq<char>>, n: nat) -> Seq<char>
    decreases n,
{
    if n == 0 {
        Seq::empty()
    } else {
        texts_run(parts, (n - 1) as nat) + parts[n - 1]
    }
}

/// The first `n` numbers of a list, one after the other.
pub open spec fn numbers_run(values: Seq<i64>, n: nat) -> Seq<char>
    decreases n,
{
    if n == 0 {
        Seq::empty()
    } else {
        numbers_run(values, (n - 1) as nat) + dec_text(values[n - 1] as int)
    }
}

/// The first `n` numbers of a list, each with its unit and followed by
/// a space.
pub open spec fn pairs_run(values: Seq<i64>, units: Seq<Seq<char>>, n: nat) -> Seq<char>
    decreases n,
{
    if n == 0 {
        Seq::empty()
    } else {
        pairs_run(values, units, (n - 1) as nat) + dec_text(values[n - 1] as int) + " "@
            + units[n - 1] + " "@
    }
}

/// The group of a text label: the key, and its values in brackets.
pub open spec fn label_group(e: (Seq<char>, Seq<Seq<char>>)) -> Seq<char> {
    e.0 + ":["@ + texts_run(e.1, e.1.len()) + "]"@
}

/// The group of a numeric label: the key, and in brackets its values,
/// with their units where there is one unit for each value.
pub open spec fn number_group(
    e: (Seq<char>, Seq<i64>),
    units: Seq<(Seq<char>, Seq<Seq<char>>)>,
) -> Seq<char> {
    e.0 + ":["@ + (match lookup(units, e.0) {
        Some(list) => if list.len() == e.1.len() {
            pairs_run(e.1, list, e.1.len())
        } else {
            numbers_run(e.1, e.1.len())
        },
        None => numbers_run(e.1, e.1.len()),
    }) + "]"@
}

/// The groups of the text labels of a sample, in the order of the keys.
pub open spec fn label_groups(s: SampleView) -> Seq<Seq<char>> {
    s.label.map_values(|e: (Seq<char>, Seq<Seq<char>>)| label_group(e))
}

/// The groups of the numeric labels of a sample, in the order of the keys.
pub open spec fn number_groups(s: SampleView) -> Seq<Seq<char>> {
    s.num_label.map_values(|e: (Seq<char>, Seq<i64>)| number_group(e, s.num_unit_label))
}

/// The first line of a sample: its values, a colon, and the ids of its
/// locations with a space between each two.
pub open spec fn sample_head(s: SampleView) -> Seq<char> {
    values_text(s.value, s.value.len()) + ": "@ + join(stack_ids(s.location), " "@)
}

/// The lines of a sample: the first line, then, where there are text
/// labels, their groups after sixteen spaces, then, where there are numeric
/// labels, their groups after sixteen spaces.
pub open spec fn sample_lines(s: SampleView) -> Seq<Seq<char>> {
    seq![sample_head(s)] + (if s.label.len() > 0 {
        seq!["                "@ + join(label_groups(s), " "@)]
    } else {
        Seq::empty()
    }) + (if s.num_label.len() > 0 {
        seq!["                "@ + join(number_groups(s), " "@)]
    } else {
        Seq::empty()
    })
}

/// The text of a sample.
pub open spec fn sample_text(s: SampleView) -> Seq<char> {
    join(sample_lines(s), "\n"@)
}

/// The texts of a list, one after the other.
fn run_texts(parts: &Vec<String>) -> (r: String)
    ensures
        r@ == texts_run(parts.deep_view(), parts.len() as nat),
{
    let mut s = String::new();
    let mut i: usize = 0;
    while i < parts.len()
        invariant
            i <= parts.len(),
            s@ == texts_run(parts.deep_view(), i as nat),
        decreases parts.len() - i,
    {
        assert(parts.deep_view()[i as int] == parts[i as int]@);
        s.append(parts[i].as_str());
        i += 1;
    }
    s
}

/// The numbers of a list, one after the other.
fn run_numbers(values: &Vec<i64>) -> (r: String)
    ensures
        r@ == numbers_run(values@, values.len() as nat),
{
    let mut s = String::new();
    let mut i: usize = 0;
    while i < values.len()
        invariant
            i <= values.len(),
            s@ == numbers_run(values@, i as nat),
        decreases values.len() - i,
    {
        push_signed(&mut s, values[i]);
        i += 1;
    }
    s
}

/// The numbers of a list, each with its unit and followed by a space.
fn run_pairs(values: &Vec<i64>, units: &Vec<String>) -> (r: String)
    requires
        units.len() == values.len(),
    ensures
        r@ == pairs_run(values@, units.deep_view(), values.len() as nat),
{
    let mut s = String::new();
    let mut i: usize = 0;
    while i < values.len()
        invariant
            i <= values.len(),
            units.len() == values.len(),
            s@ == pairs_run(values@, units.deep_view(), i as nat),
        decreases values.len() - i,
    {
        let ghost before = s@;
        assert(units.deep_view()[i as int] == units[i as int]@);
        push_signed(&mut s, values[i]);
        s.append(" ");
        s.append(units[i].as_str());
        s.append(" ");
        assert(s@ =~= before + dec_text(values[i as int] as int) + " "@ + units[i as int]@ + " "@);
        i += 1;
    }
    s
}

impl Sample {
    /// The first line of the sample.
    fn head_string(&self) -> (r: String)
        ensures
            r@ == sample_head(self@),
    {
        let mut s = String::new();
        let mut i: usize = 0;
        while i < self.value.len()
            invariant
                i <= self.value.len(),
                s@ == values_text(self.value@, i as nat),
            decreases self.value.len() - i,
        {
            let ghost before = s@;
            s.append(" ");
            let number = signed_string(self.value[i]);
            push_padded(&mut s, number.as_str(), 10);
            assert(s@ =~= before + " "@ + pad_left(dec_text(self.value[i as int] as int), 10));
            i += 1;
        }
        s.append(": ");
        let mut ids: Vec<String> = Vec::new();
        let mut k: usize = 0;
        while k < self.location.len()
            invariant
                k <= self.location.len(),
                ids.len() == k,
                forall|j: int| 0 <= j < k ==> ids[j]@ == dec_text(self.location[j].id as int),
            decreases self.location.len() - k,
        {
            ids.push(crate::text::dec_string(self.location[k].id));
            k += 1;
        }
        assert(ids.deep_view() =~= stack_ids(self@.location));
        let list = join_texts(&ids, " ");
        s.append(list.as_str());
        s
    }

    /// The groups of the text labels.
    fn label_group_strings(&self) -> (r: Vec<String>)
        ensures
            r.deep_view() == label_groups(self@),
    {
        let mut out: Vec<String> = Vec::new();
        let n = self.label.len();
        let mut i: usize = 0;
        while i < n
            invariant
                i <= n,
                n == self@.label.len(),
                out.len() == i,
                forall|j: int| 0 <= j < i ==> out[j]@ == label_group(self@.label[j]),
            decreases n - i,
        {
            let mut s = self.label.key_at(i).clone();
            s.append(":[");
            let values = self.label.value_at(i);
            let body = run_texts(values);
            s.append(body.as_str());
            s.append("]");
            assert(s@ =~= label_group(self@.label[i as int]));
            out.push(s);
            i += 1;
        }
        assert(out.deep_view() =~= label_groups(self@));
        out
    }

    /// The groups of the numeric labels.
    fn number_group_strings(&self) -> (r: Vec<String>)
        ensures
            r.deep_view() == number_groups(self@),
    {
        let mut out: Vec<String> = Vec::new();
        let n = self.num_label.len();
        let mut i: usize = 0;
        while i < n
            invariant
                i <= n,
                n == self@.num_label.len(),
                out.len() == i,
                forall|j: int|
                    0 <= j < i ==> out[j]@ == number_group(
                        self@.num_label[j],
                        self@.num_unit_label,
                    ),
            decreases n - i,
        {
            let key = self.num_label.key_at(i);
            let values = self.num_label.value_at(i);
            assert(values.deep_view() =~= values@);
            let mut s = key.clone();
            s.append(":[");
            let body = match self.num_unit_label.get(key.as_str()) {
                Some(units) => {
                    assert(units.deep_view().len() == units.len());
                    if units.len() == values.len() {
                        run_pairs(values, units)
                    } else {
                        run_numbers(values)
                    }
                },
                None => run_numbers(values),
            };
            s.append(body.as_str());
            s.append("]");
            assert(s@ =~= number_group(self@.num_label[i as int], self@.num_unit_label));
            out.push(s);
            i += 1;
        }
        assert(out.deep_view() =~= number_groups(self@));
        out
    }

    /// The lines of the sample in the text of a profile.
    pub fn to_string(&self) -> (r: String)
        ensures
            r@ == sample_text(self@),
    {
        let mut lines: Vec<String> = Vec::new();
        let head = self.head_string();
        lines.push(head);
        assert(lines.deep_view() =~= seq![sample_head(self@)]);
        if !self.label.is_empty() {
            let groups = self.label_group_strings();
            let mut s = String::from_str("                ");
            let joined = join_texts(&groups, " ");
            s.append(joined.as_str());
            let ghost before = lines.deep_view();
            lines.push(s);
            assert(lines.deep_view() =~= before + seq![
                "                "@ + join(label_groups(self@), " "@),
            ]);
        } else {
            assert(lines.deep_view() =~= lines.deep_view() + Seq::<Seq<char>>::empty());
        }
        let ghost middle = lines.deep_view();
        if !self.num_label.is_empty() {
            let groups = self.number_group_strings();
            let mut s = String::from_str("                ");
            let joined = join_texts(&groups, " ");
            s.append(joined.as_str());
            lines.push(s);
            assert(lines.deep_view() =~= middle + seq![
                "                "@ + join(number_groups(self@), " "@),
            ]);
        } else {
            assert(lines.deep_view() =~= middle + Seq::<Seq<char>>::empty());
        }
        assert(lines.deep_view() =~= sample_lines(self@));
        join_texts(&lines, "\n")
    }
}

/// The text of the UTC date and time, to the second, of a number of
/// seconds since the start of 1970; none for a number that is out of the
/// range of the calendar.
pub uninterp spec fn utc_time_text(secs: int) -> Option<Seq<char>>;

/// `chrono::DateTime::from_timestamp` with no nanoseconds, and the
/// `Display` text of the naive UTC date and time of what it gives, as
/// `2001-09-09 01:46:40`: the result is what the name `utc_time_text`
/// stands for. The call gives a date for every number of seconds that
/// comes from a positive number of nanoseconds of 64 bits; such a date
/// lies before the year 2263.
#[verifier::external_body]
fn utc_time_string(secs: i64) -> (r: Option<String>)
    ensures
        r is Some <==> utc_time_text(secs as int) is Some,
        r matches Some(s) ==> utc_time_text(secs as int) == Some(s@),
        0 <= secs <= 9_223_372_036 ==> r is Some,
{
    match chrono::DateTime::from_timestamp(secs, 0) {
        Some(t) => Some(t.naive_utc().to_string()),
        None => None,
    }
}

/// Whether `d` is one of the nine powers of ten below a thousand
/// millions.
pub open spec fn is_decimal_place(d: nat) -> bool {
    d == 1 || d == 10 || d == 100 || d == 1_000 || d == 10_000 || d == 100_000 || d == 1_000_000
        || d == 10_000_000 || d == 100_000_000
}

/// The digits of `f` from the place `place` down, without the zeros at
/// the end.
pub open spec fn fraction_text(f: nat, place: nat) -> Seq<char>
    decreases place,
{
    if f == 0 || place == 0 {
        Seq::empty()
    } else {
        seq![digit_char((f / place) as int)] + fraction_text(f % place, place / 10)
    }
}

/// A number of nanoseconds as seconds in decimal notation: the whole
/// seconds, and, where the rest is not 0, a point and the digits of the
/// rest without the zeros at the end.
pub open spec fn duration_text(nanos: nat) -> Seq<char> {
    dec_digits(nanos / 1_000_000_000) + (if nanos % 1_000_000_000 == 0 {
        Seq::empty()
    } else {
        "."@ + fraction_text(nanos % 1_000_000_000, 100_000_000)
    })
}

/// Writes the digits of `f` from the place `place` down, without the
/// zeros at the end.
fn push_fraction(out: &mut String, f: u64, place: u64)
    requires
        is_decimal_place(place as nat),
        f < 10 * place,
    ensures
        final(out)@ == old(out)@ + fraction_text(f as nat, place as nat),
    decreases place,
{
    if f == 0 {
        assert(out@ =~= old(out)@ + fraction_text(f as nat, place as nat));
        return ;
    }
    let d = f / place;
    let rest = f % place;
    push_digit(out, d);
    if place >= 10 {
        push_fraction(out, rest, place / 10);
    } else {
        assert(rest == 0);
        assert(fraction_text(rest as nat, (place / 10) as nat) =~= Seq::<char>::empty());
    }
    assert(out@ =~= old(out)@ + fraction_text(f as nat, place as nat));
}

/// A number of nanoseconds as seconds in decimal notation.
pub fn duration_string(nanos: u64) -> (r: String)
    ensures
        r@ == duration_text(nanos as nat),
{
    let mut s = String::new();
    push_dec(&mut s, nanos / 1_000_000_000);
    let rest = nanos % 1_000_000_000;
    if rest != 0 {
        s.append(".");
        push_fraction(&mut s, rest, 100_000_000);
        assert(s@ =~= dec_digits((nanos / 1_000_000_000) as nat) + ("."@ + fraction_text(
            rest as nat,
            100_000_000,
        )));
    } else {
        assert(s@ =~= dec_digits((nanos / 1_000_000_000) as nat) + Seq::<char>::empty());
    }
    s
}

/// A 64-bit integer read as an unsigned one, in two's complement.
pub open spec fn unsigned(v: i64) -> u64 {
    v as u64
}

/// An optional text as mathematics.
pub open spec fn option_text(t: Option<&str>) -> Option<Seq<char>> {
    match t {
        Some(s) => Some(s@),
        None => None,
    }
}

/// The lines of the comments.
pub open spec fn comment_lines(p: ProfileView) -> Seq<Seq<char>> {
    p.comments.map_values(|c: Seq<char>| "Comment: "@ + c)
}

/// The line of the period type, where there is one.
pub open spec fn period_type_lines(p: ProfileView) -> Seq<Seq<char>> {
    match p.period_type {
        Some(v) => seq!["PeriodType: "@ + v.ty + " "@ + v.unit],
        None => Seq::empty(),
    }
}

/// The line of the time of collection, where the time is positive and
/// `time` is the text of its date and time.
pub open spec fn time_lines(p: ProfileView, time: Option<Seq<char>>) -> Seq<Seq<char>> {
    if p.time_nanos > 0 {
        match time {
            Some(t) => seq!["Time UTC: "@ + t],
            None => Seq::empty(),
        }
    } else {
        Seq::empty()
    }
}

/// The text of the date and time of the collection of a profile.
pub open spec fn collection_time(p: ProfileView) -> Option<Seq<char>> {
    utc_time_text(p.time_nanos / 1_000_000_000)
}

/// The line of the duration, where the duration is not 0.
pub open spec fn duration_lines(p: ProfileView) -> Seq<Seq<char>> {
    if p.duration_nanos != 0 {
        seq!["Duration: "@ + duration_text(unsigned(p.duration_nanos) as nat) + "s"@]
    } else {
        Seq::empty()
    }
}

/// The text of a sample type: type and unit, and the mark of the
/// default where its type is the default sample type.
pub open spec fn sample_type_text(v: ValueTypeView, default_type: Seq<char>) -> Seq<char> {
    v.ty + "/"@ + v.unit + (if v.ty == default_type {
        "[dflt]"@
    } else {
        Seq::empty()
    })
}

/// The line of the sample types, with a space between each two.
pub open spec fn sample_types_line(p: ProfileView) -> Seq<char> {
    join(
        p.sample_type.map_values(|v: ValueTypeView| sample_type_text(v, p.default_sample_type)),
        " "@,
    )
}

/// The lines that come before the samples.
pub open spec fn head_lines(p: ProfileView, time: Option<Seq<char>>) -> Seq<Seq<char>> {
    comment_lines(p) + period_type_lines(p) + seq!["Period: "@ + dec_text(p.period as int)]
        + time_lines(p, time) + duration_lines(p) + seq!["Samples:"@] + seq![
        sample_types_line(p),
    ]
}

/// The lines of a profile, in their order.
pub open spec fn profile_lines(p: ProfileView, time: Option<Seq<char>>) -> Seq<Seq<char>> {
    head_lines(p, time) + p.sample.map_values(|s: SampleView| sample_text(s)) + seq![
        "Locations"@,
    ] + p.location.map_values(|l: LocationView| location_text(l)) + seq!["Mappings"@]
        + p.mapping.map_values(|m: MappingView| mapping_text(m))
}

/// The text of a profile whose time of collection has the text `time`:
/// its lines, each ended by a line feed.
pub open spec fn profile_text_at(p: ProfileView, time: Option<Seq<char>>) -> Seq<char> {
    join(profile_lines(p, time), "\n"@) + "\n"@
}

/// The canonical text of a profile.
pub open spec fn profile_text(p: ProfileView) -> Seq<char> {
    profile_text_at(p, collection_time(p))
}

impl Profile {
    /// The lines that come before the samples.
    fn head_strings(&self, time: Option<&str>) -> (r: Vec<String>)
        ensures
            r.deep_view() == head_lines(self@, option_text(time)),
    {
        let mut lines: Vec<String> = Vec::new();
        let mut i: usize = 0;
        while i < self.comments.len()
            invariant
                i <= self.comments.len(),
                lines.len() == i,
                forall|j: int| 0 <= j < i ==> lines[j]@ == "Comment: "@ + self.comments[j]@,
            decreases self.comments.len() - i,
        {
            let mut s = String::from_str("Comment: ");
            s.append(self.comments[i].as_str());
            lines.push(s);
            i += 1;
        }
        assert(lines.deep_view() =~= comment_lines(self@));
        let ghost a = lines.deep_view();
        match &self.period_type {
            Some(v) => {
                let mut s = String::from_str("PeriodType: ");
                s.append(v.ty.as_str());
                s.append(" ");
                s.append(v.unit.as_str());
                lines.push(s);
                assert(lines.deep_view() =~= a + period_type_lines(self@));
            },
            None => {
                assert(lines.deep_view() =~= a + period_type_lines(self@));
            },
        }
        let ghost b = lines.deep_view();
        let mut s = String::from_str("Period: ");
        push_signed(&mut s, self.period);
        lines.push(s);
        assert(lines.deep_view() =~= b + seq!["Period: "@ + dec_text(self.period as int)]);
        let ghost c = lines.deep_view();
        if self.time_nanos > 0 {
            match time {
                Some(t) => {
                    let mut s = String::from_str("Time UTC: ");
                    s.append(t);
                    lines.push(s);
                    assert(lines.deep_view() =~= c + time_lines(self@, option_text(time)));
                },
                None => {
                    assert(lines.deep_view() =~= c + time_lines(self@, option_text(time)));
                },
            }
        } else {
            assert(lines.deep_view() =~= c + time_lines(self@, option_text(time)));
        }
        let ghost d = lines.deep_view();
        if self.duration_nanos != 0 {
            let mut s = String::from_str("Duration: ");
            let text = duration_string(self.duration_nanos as u64);
            s.append(text.as_str());
            s.append("s");
            lines.push(s);
            assert(lines.deep_view() =~= d + duration_lines(self@));
        } else {
            assert(lines.deep_view() =~= d + duration_lines(self@));
        }
        let ghost e = lines.deep_view();
        lines.push(String::from_str("Samples:"));
        assert(lines.deep_view() =~= e + seq!["Samples:"@]);
        let ghost f = lines.deep_view();
        let mut types: Vec<String> = Vec::new();
        let mut k: usize = 0;
        while k < self.sample_type.len()
            invariant
                k <= self.sample_type.len(),
                types.len() == k,
                forall|j: int|
                    0 <= j < k ==> types[j]@ == sample_type_text(
                        self.sample_type[j]@,
                        self.default_sample_type@,
                    ),
            decreases self.sample_type.len() - k,
        {
            let v = &self.sample_type[k];
            let mut s = v.ty.clone();
            s.append("/");
            s.append(v.unit.as_str());
            let ghost body = s@;
            if v.ty == self.default_sample_type {
                s.append("[dflt]");
            } else {
                assert(s@ =~= body + Seq::<char>::empty());
            }
            types.push(s);
            k += 1;
        }
        assert(types.deep_view() =~= self@.sample_type.map_values(
            |v: ValueTypeView| sample_type_text(v, self@.default_sample_type),
        ));
        lines.push(join_texts(&types, " "));
        assert(lines.deep_view() =~= f + seq![sample_types_line(self@)]);
        lines
    }

    /// The canonical text of the profile. It is a function of the
    /// profile alone: two profiles with the same values give the same
    /// text.
    pub fn to_string(&self) -> (r: String)
        ensures
            r@ == profile_text(self@),
    {
        if self.time_nanos > 0 {
            let secs = ((self.time_nanos as u64) / 1_000_000_000) as i64;
            assert(secs == self.time_nanos / 1_000_000_000);
            match utc_time_string(secs) {
                Some(t) => self.text_at(Some(t.as_str())),
                None => self.text_at(None),
            }
        } else {
            self.text_at(None)
        }
    }

    /// The text of the profile with the text of the date and time of its
    /// collection given. The time is looked at only where the time of
    /// collection is positive.
    pub fn text_at(&self, time: Option<&str>) -> (r: String)
        ensures
            r@ == profile_text_at(self@, option_text(time)),
            self.time_nanos <= 0 ==> r@ == profile_text(self@),
    {
        let mut lines = self.head_strings(time);
        let ghost a = lines.deep_view();
        let mut i: usize = 0;
        while i < self.sample.len()
            invariant
                i <= self.sample.len(),
                lines.len() == a.len() + i,
                lines.deep_view().take(a.len() as int) == a,
                forall|j: int| 0 <= j < i ==> lines[a.len() + j]@ == sample_text(self.sample[j]@),
            decreases self.sample.len() - i,
        {
            let ghost before = lines.deep_view();
            let s = self.sample[i].to_string();
            lines.push(s);
            assert(lines.deep_view().take(a.len() as int) =~= before.take(a.len() as int));
            i += 1;
        }
        assert(lines.deep_view() =~= a + self@.sample.map_values(|s: SampleView| sample_text(s)));
        let ghost b = lines.deep_view();
        lines.push(String::from_str("Locations"));
        assert(lines.deep_view() =~= b + seq!["Locations"@]);
        let ghost c = lines.deep_view();
        let mut i: usize = 0;
        while i < self.location.len()
            invariant
                i <= self.location.len(),
                lines.len() == c.len() + i,
                lines.deep_view().take(c.len() as int) == c,
                forall|j: int|
                    0 <= j < i ==> lines[c.len() + j]@ == location_text(self.location[j]@),
            decreases self.location.len() - i,
        {
            let ghost before = lines.deep_view();
            let s = self.location[i].to_string();
            lines.push(s);
            assert(lines.deep_view().take(c.len() as int) =~= before.take(c.len() as int));
            i += 1;
        }
        assert(lines.deep_view() =~= c + self@.location.map_values(
            |l: LocationView| location_text(l),
        ));
        let ghost d = lines.deep_view();
        lines.push(String::from_str("Mappings"));
        assert(lines.deep_view() =~= d + seq!["Mappings"@]);
        let ghost e = lines.deep_view();
        let mut i: usize = 0;
        while i < self.mapping.len()
            invariant
                i <= self.mapping.len(),
                lines.len() == e.len() + i,
                lines.deep_view().take(e.len() as int) == e,
                forall|j: int| 0 <= j < i ==> lines[e.len() + j]@ == mapping_text(self.mapping[j]@),
            decreases self.mapping.len() - i,
        {
            let ghost before = lines.deep_view();
            let s = self.mapping[i].to_string();
            lines.push(s);
            assert(lines.deep_view().take(e.len() as int) =~= before.take(e.len() as int));
            i += 1;
        }
        assert(lines.deep_view() =~= e + self@.mapping.map_values(
            |m: MappingView| mapping_text(m),
        ));
        assert(lines.deep_view() =~= profile_lines(self@, option_text(time)));
        proof {
            if self.time_nanos <= 0 {
                assert(time_lines(self@, option_text(time)) =~= time_lines(
                    self@,
                    collection_time(self@),
                ));
            }
        }
        let mut text = join_texts(&lines, "\n");
        text.append("\n");
        text
    }
}

} // verus!
