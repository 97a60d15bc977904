use vstd::prelude::*;

use crate::datetime::{fields_to_datetime, parse_stored_datetime, stored_datetime_spec, DateTime};
use crate::json::{
    as_array, as_bool, as_str, as_u64, is_null, is_object, json_parse, json_tree, member,
    parse_json, JsonTree,
};
use crate::priority::{priority_of_code, rank, Priority};
use crate::task::{task_wf, Task, TaskView};

verus! {

// ---------------------------------------------------------------------------
// The persistence format.
//
// A list is a JSON array of objects, written without spaces:
//   [{"description":"...","completed":false,"priority":1,"due_time":null},...]
// The priority is its code; the due time is `null` or a string
// "YYYY-MM-DDTHH:MM:SS". In the description, `"` and `\` and the control
// characters are escaped as JSON does (\b \t \n \f \r, else \u00XX).
// ---------------------------------------------------------------------------

/// The decimal digit for `v` (`v < 10`).
pub open spec fn digit(v: int) -> char {
    ((48 + v) as u8) as char
}

/// The lowercase hexadecimal digit for `v` (`v < 16`).
pub open spec fn hex_digit(v: int) -> char {
    if v < 10 {
        ((48 + v) as u8) as char
    } else {
        ((87 + v) as u8) as char
    }
}

/// The letter of the two-character escape of `c`, for the characters that have one.
pub open spec fn short_escape(c: char) -> Option<char> {
    if c == '"' {
        Some('"')
    } else if c == '\\' {
        Some('\\')
    } else if c == '\u{8}' {
        Some('b')
    } else if c == '\t' {
        Some('t')
    } else if c == '\n' {
        Some('n')
    } else if c == '\u{c}' {
        Some('f')
    } else if c == '\r' {
        Some('r')
    } else {
        None
    }
}

/// How one character of a description is written.
pub open spec fn enc_char(c: char) -> Seq<char> {
    match short_escape(c) {
        Some(e) => seq!['\\', e],
        None => if (c as u32) < 0x20 {
            seq!['\\', 'u', '0', '0', hex_digit((c as u32) as int / 16), hex_digit((c as u32) as int % 16)]
        } else {
            seq![c]
        },
    }
}

/// The escaped body of a string.
pub open spec fn enc_text(d: Seq<char>) -> Seq<char>
    decreases d.len(),
{
    if d.len() == 0 {
        Seq::empty()
    } else {
        enc_char(d[0]) + enc_text(d.drop_first())
    }
}

pub open spec fn enc_quoted(d: Seq<char>) -> Seq<char> {
    seq!['"'] + enc_text(d) + seq!['"']
}

pub open spec fn two_digits(v: int) -> Seq<char> {
    seq![digit(v / 10), digit(v % 10)]
}

pub open spec fn four_digits(v: int) -> Seq<char> {
    seq![digit(v / 1000), digit((v / 100) % 10), digit((v / 10) % 10), digit(v % 10)]
}

/// A moment as `YYYY-MM-DDTHH:MM:SS`.
pub open spec fn enc_datetime(d: DateTime) -> Seq<char> {
    let y = d.year as int;
    seq![
        digit(y / 1000),
        digit((y / 100) % 10),
        digit((y / 10) % 10),
        digit(y % 10),
        '-',
        digit(d.month as int / 10),
        digit(d.month as int % 10),
        '-',
        digit(d.day as int / 10),
        digit(d.day as int % 10),
        'T',
        digit(d.hour as int / 10),
        digit(d.hour as int % 10),
        ':',
        digit(d.minute as int / 10),
        digit(d.minute as int % 10),
        ':',
        digit(d.second as int / 10),
        digit(d.second as int % 10),
    ]
}

pub open spec fn enc_due(d: Option<DateTime>) -> Seq<char> {
    match d {
        Some(dt) => seq!['"'] + enc_datetime(dt) + seq!['"'],
        None => "null"@,
    }
}

pub open spec fn enc_bool(b: bool) -> Seq<char> {
    if b {
        "true"@
    } else {
        "false"@
    }
}

/// One task record.
pub open spec fn enc_task(t: TaskView) -> Seq<char> {
    "{\"description\":"@ + enc_quoted(t.description) + ",\"completed\":"@ + enc_bool(t.completed)
        + ",\"priority\":"@ + seq![digit(rank(t.priority) as int)] + ",\"due_time\":"@ + enc_due(
        t.due_time,
    ) + "}"@
}

/// The records after the first, each preceded by a comma.
pub open spec fn enc_rest(ts: Seq<TaskView>) -> Seq<char>
    decreases ts.len(),
{
    if ts.len() == 0 {
        Seq::empty()
    } else {
        seq![','] + enc_task(ts[0]) + enc_rest(ts.drop_first())
    }
}

/// A whole list.
pub open spec fn enc_list(ts: Seq<TaskView>) -> Seq<char> {
    if ts.len() == 0 {
        "[]"@
    } else {
        seq!['['] + enc_task(ts[0]) + enc_rest(ts.drop_first()) + seq![']']
    }
}

/// Relies on std's `String::push`: appends one character.
#[verifier::external_body]
fn push_char(s: &mut String, c: char)
    ensures
        final(s)@ == old(s)@.push(c),
{
    s.push(c)
}

/// Appends the escaped form of `d`.
fn write_text(out: &mut String, d: &str)
    ensures
        final(out)@ == old(out)@ + enc_text(d@),
{
    let ghost target = old(out)@ + enc_text(d@);
    let n = d.unicode_len();
    let mut i: usize = 0;
    assert(d@.skip(0) =~= d@);
    while i < n
        invariant
            n == d@.len(),
            i <= n,
            target == out@ + enc_text(d@.skip(i as int)),
        decreases n - i,
    {
        let c = d.get_char(i);
        let ghost before = out@;
        assert(d@.skip(i as int).drop_first() =~= d@.skip(i + 1));
        if c == '"' {
            push_char(out, '\\');
            push_char(out, '"');
        } else if c == '\\' {
            push_char(out, '\\');
            push_char(out, '\\');
        } else if c == '\u{8}' {
            push_char(out, '\\');
            push_char(out, 'b');
        } else if c == '\t' {
            push_char(out, '\\');
            push_char(out, 't');
        } else if c == '\n' {
            push_char(out, '\\');
            push_char(out, 'n');
        } else if c == '\u{c}' {
            push_char(out, '\\');
            push_char(out, 'f');
        } else if c == '\r' {
            push_char(out, '\\');
            push_char(out, 'r');
        } else if (c as u32) < 0x20 {
            let v = c as u32 as u8;
            push_char(out, '\\');
            push_char(out, 'u');
            push_char(out, '0');
            push_char(out, '0');
            push_char(out, (48u8 + v / 16) as char);
            let lo = v % 16;
            if lo < 10 {
                push_char(out, (48u8 + lo) as char);
            } else {
                push_char(out, (87u8 + lo) as char);
            }
        } else {
            push_char(out, c);
        }
        assert(out@ =~= before + enc_char(c));
        i = i + 1;
    }
    assert(d@.skip(i as int) =~= Seq::<char>::empty());
    assert(out@ =~= target);
}

fn write_digit(out: &mut String, v: u16)
    requires
        v < 10,
    ensures
        final(out)@ == old(out)@.push(digit(v as int)),
{
    push_char(out, (48u8 + v as u8) as char);
}

fn write_two(out: &mut String, v: u8)
    requires
        v < 100,
    ensures
        final(out)@ == old(out)@ + two_digits(v as int),
{
    write_digit(out, (v / 10) as u16);
    write_digit(out, (v % 10) as u16);
    assert(out@ =~= old(out)@ + two_digits(v as int));
}

fn write_datetime(out: &mut String, d: &DateTime)
    requires
        d.wf(),
    ensures
        final(out)@ == old(out)@ + enc_datetime(*d),
{
    write_digit(out, d.year / 1000);
    write_digit(out, (d.year / 100) % 10);
    write_digit(out, (d.year / 10) % 10);
    write_digit(out, d.year % 10);
    push_char(out, '-');
    write_two(out, d.month);
    push_char(out, '-');
    write_two(out, d.day);
    push_char(out, 'T');
    write_two(out, d.hour);
    push_char(out, ':');
    write_two(out, d.minute);
    push_char(out, ':');
    write_two(out, d.second);
    assert(out@ =~= old(out)@ + enc_datetime(*d));
}

/// Appends the record of one task.
#[verifier::rlimit(40)]
fn write_task(out: &mut String, t: &Task)
    requires
        task_wf(t@),
    ensures
        final(out)@ == old(out)@ + enc_task(t@),
{
    out.append("{\"description\":");
    push_char(out, '"');
    write_text(out, t.description.as_str());
    push_char(out, '"');
    out.append(",\"completed\":");
    if t.completed {
        out.append("true");
    } else {
        out.append("false");
    }
    out.append(",\"priority\":");
    write_digit(out, t.priority.code() as u16);
    out.append(",\"due_time\":");
    match &t.due_time {
        Some(d) => {
            push_char(out, '"');
            write_datetime(out, d);
            push_char(out, '"');
        },
        None => {
            out.append("null");
        },
    }
    out.append("}");
    assert(out@ =~= old(out)@ + enc_task(t@));
}

/// The text of a whole list of tasks.
pub fn encode_tasks(tasks: &Vec<Task>) -> (r: String)
    requires
        forall|i: int| 0 <= i < tasks@.len() ==> task_wf(#[trigger] tasks@[i]@),
    ensures
        r@ == enc_list(tasks@.map_values(|t: Task| t@)),
{
    let ghost ts = tasks@.map_values(|t: Task| t@);
    let mut out = String::new();
    if tasks.len() == 0 {
        out.append("[]");
        return out;
    }
    push_char(&mut out, '[');
    write_task(&mut out, &tasks[0]);
    let mut i: usize = 1;
    let ghost target = seq!['['] + enc_task(ts[0]) + enc_rest(ts.drop_first());
    assert(ts.drop_first() =~= ts.skip(1));
    while i < tasks.len()
        invariant
            1 <= i <= tasks.len(),
            ts == tasks@.map_values(|t: Task| t@),
            forall|k: int| 0 <= k < tasks@.len() ==> task_wf(#[trigger] tasks@[k]@),
            target == out@ + enc_rest(ts.skip(i as int)),
        decreases tasks.len() - i,
    {
        let ghost before = out@;
        assert(ts.skip(i as int).drop_first() =~= ts.skip(i + 1));
        push_char(&mut out, ',');
        write_task(&mut out, &tasks[i]);
        assert(out@ =~= before + (seq![','] + enc_task(ts[i as int])));
        i = i + 1;
    }
    assert(ts.skip(i as int) =~= Seq::<TaskView>::empty());
    push_char(&mut out, ']');
    assert(out@ =~= target + seq![']']);
    out
}


// ---------------------------------------------------------------------------
// Reading the format back. Each reader starts at a position of the text and
// gives what it read with the position just after it.
// ---------------------------------------------------------------------------

/// `l` stands in `s` from position `i` on.
pub open spec fn lit_at(s: Seq<char>, i: int, l: Seq<char>) -> bool {
    0 <= i && i + l.len() <= s.len() && s.subrange(i, i + l.len()) == l
}

pub open spec fn is_digit(c: char) -> bool {
    48 <= (c as u32) <= 57
}

pub open spec fn digit_value(c: char) -> int {
    (c as u32) - 48
}

pub open spec fn hex_value(c: char) -> Option<int> {
    if 48 <= (c as u32) <= 57 {
        Some((c as u32) - 48)
    } else if 97 <= (c as u32) <= 102 {
        Some((c as u32) - 87)
    } else {
        None
    }
}

/// One character of a description, escaped or not.
pub open spec fn parse_char(s: Seq<char>, i: int) -> Option<(char, int)> {
    if !(0 <= i < s.len()) {
        None
    } else if s[i] == '\\' {
        if i + 1 >= s.len() {
            None
        } else {
            let e = s[i + 1];
            if e == '"' {
                Some(('"', i + 2))
            } else if e == '\\' {
                Some(('\\', i + 2))
            } else if e == 'b' {
                Some(('\u{8}', i + 2))
            } else if e == 't' {
                Some(('\t', i + 2))
            } else if e == 'n' {
                Some(('\n', i + 2))
            } else if e == 'f' {
                Some(('\u{c}', i + 2))
            } else if e == 'r' {
                Some(('\r', i + 2))
            } else if e == 'u' && i + 6 <= s.len() && s[i + 2] == '0' && s[i + 3] == '0' && (s[i
                + 4] == '0' || s[i + 4] == '1') && hex_value(s[i + 5]) is Some {
                Some(
                    (
                        ((16 * digit_value(s[i + 4]) + hex_value(s[i + 5])->0) as u8) as char,
                        i + 6,
                    ),
                )
            } else {
                None
            }
        }
    } else if s[i] == '"' || (s[i] as u32) < 0x20 {
        None
    } else {
        Some((s[i], i + 1))
    }
}

/// The rest of a string after its opening quote, up to and past the closing one.
pub open spec fn parse_text_rest(s: Seq<char>, i: int) -> Option<(Seq<char>, int)>
    decreases s.len() - i,
{
    if !(0 <= i < s.len()) {
        None
    } else if s[i] == '"' {
        Some((Seq::empty(), i + 1))
    } else {
        match parse_char(s, i) {
            Some((c, j)) => if j > i {
                match parse_text_rest(s, j) {
                    Some((d, k)) => Some((seq![c] + d, k)),
                    None => None,
                }
            } else {
                None
            },
            None => None,
        }
    }
}

pub open spec fn parse_bool(s: Seq<char>, i: int) -> Option<(bool, int)> {
    if lit_at(s, i, "true"@) {
        Some((true, i + 4))
    } else if lit_at(s, i, "false"@) {
        Some((false, i + 5))
    } else {
        None
    }
}

pub open spec fn num2(s: Seq<char>, i: int) -> int {
    10 * digit_value(s[i]) + digit_value(s[i + 1])
}

pub open spec fn num4(s: Seq<char>, i: int) -> int {
    1000 * digit_value(s[i]) + 100 * digit_value(s[i + 1]) + 10 * digit_value(s[i + 2])
        + digit_value(s[i + 3])
}

/// `YYYY-MM-DDTHH:MM:SS` at `i`, naming a real moment.
pub open spec fn parse_datetime(s: Seq<char>, i: int) -> Option<(DateTime, int)> {
    if 0 <= i && i + 19 <= s.len() && is_digit(s[i]) && is_digit(s[i + 1]) && is_digit(s[i + 2])
        && is_digit(s[i + 3]) && s[i + 4] == '-' && is_digit(s[i + 5]) && is_digit(s[i + 6])
        && s[i + 7] == '-' && is_digit(s[i + 8]) && is_digit(s[i + 9]) && s[i + 10] == 'T'
        && is_digit(s[i + 11]) && is_digit(s[i + 12]) && s[i + 13] == ':' && is_digit(s[i + 14])
        && is_digit(s[i + 15]) && s[i + 16] == ':' && is_digit(s[i + 17]) && is_digit(s[i + 18]) {
        match fields_to_datetime(
            num4(s, i),
            num2(s, i + 5),
            num2(s, i + 8),
            num2(s, i + 11),
            num2(s, i + 14),
            num2(s, i + 17),
        ) {
            Some(d) => Some((d, i + 19)),
            None => None,
        }
    } else {
        None
    }
}

pub open spec fn parse_due(s: Seq<char>, i: int) -> Option<(Option<DateTime>, int)> {
    if lit_at(s, i, "null"@) {
        Some((None, i + 4))
    } else if 0 <= i < s.len() && s[i] == '"' {
        match parse_datetime(s, i + 1) {
            Some((d, j)) => if j < s.len() && s[j] == '"' {
                Some((Some(d), j + 1))
            } else {
                None
            },
            None => None,
        }
    } else {
        None
    }
}

/// One task record at `i`.
#[verifier::opaque]
pub open spec fn parse_task(s: Seq<char>, i: int) -> Option<(TaskView, int)> {
    let k_desc = "{\"description\":"@;
    let k_comp = ",\"completed\":"@;
    let k_prio = ",\"priority\":"@;
    let k_due = ",\"due_time\":"@;
    if !(lit_at(s, i, k_desc) && i + k_desc.len() < s.len() && s[i + k_desc.len()] == '"') {
        None
    } else {
        match parse_text_rest(s, i + k_desc.len() + 1) {
            None => None,
            Some((d, j)) => if !lit_at(s, j, k_comp) {
                None
            } else {
                match parse_bool(s, j + k_comp.len()) {
                    None => None,
                    Some((b, k)) => {
                        let pk = k + k_prio.len();
                        if !(lit_at(s, k, k_prio) && pk < s.len() && is_digit(s[pk])
                            && priority_of_code(digit_value(s[pk])) is Some && lit_at(
                            s,
                            pk + 1,
                            k_due,
                        )) {
                            None
                        } else {
                            match parse_due(s, pk + 1 + k_due.len()) {
                                None => None,
                                Some((due, q)) => if q < s.len() && s[q] == '}' {
                                    Some(
                                        (
                                            TaskView {
                                                description: d,
                                                completed: b,
                                                priority: priority_of_code(
                                                    digit_value(s[pk]),
                                                )->0,
                                                due_time: due,
                                            },
                                            q + 1,
                                        ),
                                    )
                                } else {
                                    None
                                },
                            }
                        }
                    },
                }
            },
        }
    }
}

/// The records after the first, each after a comma, then `]` at the very end.
pub open spec fn parse_items(s: Seq<char>, i: int) -> Option<Seq<TaskView>>
    decreases s.len() - i,
{
    if !(0 <= i < s.len()) {
        None
    } else if s[i] == ']' {
        if i + 1 == s.len() {
            Some(Seq::empty())
        } else {
            None
        }
    } else if s[i] == ',' {
        match parse_task(s, i + 1) {
            Some((t, j)) => if i < j <= s.len() {
                match parse_items(s, j) {
                    Some(r) => Some(seq![t] + r),
                    None => None,
                }
            } else {
                None
            },
            None => None,
        }
    } else {
        None
    }
}

/// The list that a whole text holds, if it is well formed.
pub open spec fn parse_list(s: Seq<char>) -> Option<Seq<TaskView>> {
    if s.len() == 2 && s[0] == '[' && s[1] == ']' {
        Some(Seq::empty())
    } else if s.len() > 0 && s[0] == '[' {
        match parse_task(s, 1) {
            Some((t, j)) => match parse_items(s, j) {
                Some(r) => Some(seq![t] + r),
                None => None,
            },
            None => None,
        }
    } else {
        None
    }
}


fn lit_at_exec(s: &Vec<char>, i: usize, l: &str) -> (r: bool)
    ensures
        r == lit_at(s@, i as int, l@),
{
    let n = l.unicode_len();
    if i > s.len() || n > s.len() - i {
        return false;
    }
    let mut k: usize = 0;
    while k < n
        invariant
            n == l@.len(),
            i + n <= s.len(),
            k <= n,
            forall|m: int| 0 <= m < k ==> s@[i + m] == l@[m],
        decreases n - k,
    {
        if s[i + k] != l.get_char(k) {
            assert(s@.subrange(i as int, i + n)[k as int] != l@[k as int]);
            return false;
        }
        k = k + 1;
    }
    assert(s@.subrange(i as int, i + n) =~= l@);
    true
}

fn hex_value_exec(c: char) -> (r: Option<u8>)
    ensures
        match r {
            Some(v) => hex_value(c) == Some(v as int),
            None => hex_value(c) is None,
        },
{
    let v = c as u32;
    if 48 <= v && v <= 57 {
        Some((v - 48) as u8)
    } else if 97 <= v && v <= 102 {
        Some((v - 87) as u8)
    } else {
        None
    }
}

fn parse_char_exec(s: &Vec<char>, i: usize) -> (r: Option<(char, usize)>)
    ensures
        match r {
            Some((c, j)) => parse_char(s@, i as int) == Some((c, j as int)) && j <= s.len(),
            None => parse_char(s@, i as int) is None,
        },
{
    if i >= s.len() {
        return None;
    }
    let c = s[i];
    if c == '\\' {
        if i + 1 >= s.len() {
            return None;
        }
        let e = s[i + 1];
        if e == '"' {
            Some(('"', i + 2))
        } else if e == '\\' {
            Some(('\\', i + 2))
        } else if e == 'b' {
            Some(('\u{8}', i + 2))
        } else if e == 't' {
            Some(('\t', i + 2))
        } else if e == 'n' {
            Some(('\n', i + 2))
        } else if e == 'f' {
            Some(('\u{c}', i + 2))
        } else if e == 'r' {
            Some(('\r', i + 2))
        } else if e == 'u' && s.len() >= 6 && i <= s.len() - 6 && s[i + 2] == '0' && s[i + 3]
            == '0' && (s[i + 4] == '0' || s[i + 4] == '1') {
            match hex_value_exec(s[i + 5]) {
                Some(lo) => {
                    let hi: u8 = if s[i + 4] == '1' {
                        1
                    } else {
                        0
                    };
                    Some(((16 * hi + lo) as char, i + 6))
                },
                None => None,
            }
        } else {
            None
        }
    } else if c == '"' || (c as u32) < 0x20 {
        None
    } else {
        Some((c, i + 1))
    }
}

/// Reads the rest of a string, after its opening quote.
fn parse_text_exec(s: &Vec<char>, start: usize) -> (r: Option<(String, usize)>)
    ensures
        match r {
            Some((d, j)) => parse_text_rest(s@, start as int) == Some((d@, j as int)) && start < j
                <= s.len(),
            None => parse_text_rest(s@, start as int) is None,
        },
{
    let mut acc = String::new();
    let mut i = start;
    while i < s.len()
        invariant
            start <= i,
            parse_text_rest(s@, start as int) == match parse_text_rest(s@, i as int) {
                Some((d, k)) => Some((acc@ + d, k)),
                None => None,
            },
        decreases s.len() - i,
    {
        if s[i] == '"' {
            assert(acc@ + Seq::<char>::empty() =~= acc@);
            return Some((acc, i + 1));
        }
        match parse_char_exec(s, i) {
            Some((c, j)) => {
                proof {
                    match parse_text_rest(s@, j as int) {
                        Some((d, k)) => {
                            assert(acc@.push(c) + d =~= acc@ + (seq![c] + d));
                        },
                        None => {},
                    }
                }
                push_char(&mut acc, c);
                i = j;
            },
            None => {
                return None;
            },
        }
    }
    None
}

fn parse_bool_exec(s: &Vec<char>, i: usize) -> (r: Option<(bool, usize)>)
    ensures
        match r {
            Some((b, j)) => parse_bool(s@, i as int) == Some((b, j as int)) && i < j <= s.len(),
            None => parse_bool(s@, i as int) is None,
        },
{
    proof {
        reveal_strlit("true");
        reveal_strlit("false");
    }
    let n = s.len();
    if lit_at_exec(s, i, "true") {
        assert(i + 4 <= n);
        Some((true, i + 4))
    } else if lit_at_exec(s, i, "false") {
        assert(i + 5 <= n);
        Some((false, i + 5))
    } else {
        None
    }
}

fn digit_at(s: &Vec<char>, i: usize) -> (r: Option<i64>)
    requires
        i < s.len(),
    ensures
        match r {
            Some(v) => is_digit(s@[i as int]) && v == digit_value(s@[i as int]),
            None => !is_digit(s@[i as int]),
        },
{
    let v = s[i] as u32;
    if 48 <= v && v <= 57 {
        Some((v - 48) as i64)
    } else {
        None
    }
}

fn num_at(s: &Vec<char>, i: usize, n: usize) -> (r: Option<i64>)
    requires
        n == 2 || n == 4,
        i + n <= s.len(),
    ensures
        match r {
            Some(v) => (forall|k: int| i <= k < i + n ==> is_digit(#[trigger] s@[k])) && v == (
            if n == 2 {
                num2(s@, i as int)
            } else {
                num4(s@, i as int)
            }),
            None => !(forall|k: int| i <= k < i + n ==> is_digit(#[trigger] s@[k])),
        },
{
    let mut v: i64 = 0;
    let mut k: usize = 0;
    while k < n
        invariant
            n == 2 || n == 4,
            i + n <= s.len(),
            k <= n,
            forall|m: int| i <= m < i + k ==> is_digit(#[trigger] s@[m]),
            n == 2 && k == 0 ==> v == 0,
            n == 2 && k == 1 ==> v == digit_value(s@[i as int]),
            n == 2 && k == 2 ==> v == num2(s@, i as int),
            n == 4 && k == 0 ==> v == 0,
            n == 4 && k == 1 ==> v == digit_value(s@[i as int]),
            n == 4 && k == 2 ==> v == 10 * digit_value(s@[i as int]) + digit_value(s@[i + 1]),
            n == 4 && k == 3 ==> v == 100 * digit_value(s@[i as int]) + 10 * digit_value(s@[i + 1])
                + digit_value(s@[i + 2]),
            n == 4 && k == 4 ==> v == num4(s@, i as int),
            0 <= v < 10000,
        decreases n - k,
    {
        match digit_at(s, i + k) {
            Some(d) => {
                v = v * 10 + d;
            },
            None => {
                return None;
            },
        }
        k = k + 1;
    }
    Some(v)
}

fn parse_datetime_exec(s: &Vec<char>, i: usize) -> (r: Option<(DateTime, usize)>)
    ensures
        match r {
            Some((d, j)) => parse_datetime(s@, i as int) == Some((d, j as int)) && j <= s.len(),
            None => parse_datetime(s@, i as int) is None,
        },
{
    if i > s.len() || s.len() - i < 19 {
        return None;
    }
    if s[i + 4] != '-' || s[i + 7] != '-' || s[i + 10] != 'T' || s[i + 13] != ':' || s[i + 16]
        != ':' {
        return None;
    }
    let year = num_at(s, i, 4);
    let month = num_at(s, i + 5, 2);
    let day = num_at(s, i + 8, 2);
    let hour = num_at(s, i + 11, 2);
    let minute = num_at(s, i + 14, 2);
    let second = num_at(s, i + 17, 2);
    match (year, month, day, hour, minute, second) {
        (Some(y), Some(mo), Some(d), Some(h), Some(mi), Some(se)) => {
            assert(is_digit(s@[i + 0]) && is_digit(s@[i + 1]) && is_digit(s@[i + 2]) && is_digit(
                s@[i + 3],
            ));
            assert(is_digit(s@[i + 5]) && is_digit(s@[i + 6]));
            assert(is_digit(s@[i + 8]) && is_digit(s@[i + 9]));
            assert(is_digit(s@[i + 11]) && is_digit(s@[i + 12]));
            assert(is_digit(s@[i + 14]) && is_digit(s@[i + 15]));
            assert(is_digit(s@[i + 17]) && is_digit(s@[i + 18]));
            match DateTime::new(y, mo, d, h, mi, se) {
                Some(dt) => Some((dt, i + 19)),
                None => None,
            }
        },
        _ => None,
    }
}

fn parse_due_exec(s: &Vec<char>, i: usize) -> (r: Option<(Option<DateTime>, usize)>)
    ensures
        match r {
            Some((d, j)) => parse_due(s@, i as int) == Some((d, j as int)) && i < j <= s.len(),
            None => parse_due(s@, i as int) is None,
        },
{
    proof {
        reveal_strlit("null");
    }
    if lit_at_exec(s, i, "null") {
        Some((None, i + 4))
    } else if i < s.len() && s[i] == '"' {
        match parse_datetime_exec(s, i + 1) {
            Some((d, j)) => if j < s.len() && s[j] == '"' {
                Some((Some(d), j + 1))
            } else {
                None
            },
            None => None,
        }
    } else {
        None
    }
}


fn parse_task_exec(s: &Vec<char>, i: usize) -> (r: Option<(Task, usize)>)
    ensures
        match r {
            Some((t, j)) => parse_task(s@, i as int) == Some((t@, j as int)) && i < j <= s.len()
                && task_wf(t@),
            None => parse_task(s@, i as int) is None,
        },
{
    proof {
        reveal(parse_task);
        reveal_strlit("{\"description\":");
        reveal_strlit(",\"completed\":");
        reveal_strlit(",\"priority\":");
        reveal_strlit(",\"due_time\":");
    }
    let n = s.len();
    if !lit_at_exec(s, i, "{\"description\":") {
        return None;
    }
    if i + 15 >= n || s[i + 15] != '"' {
        return None;
    }
    let (description, j) = match parse_text_exec(s, i + 16) {
        Some(x) => x,
        None => {
            return None;
        },
    };
    if !lit_at_exec(s, j, ",\"completed\":") {
        return None;
    }
    let (completed, k) = match parse_bool_exec(s, j + 13) {
        Some(x) => x,
        None => {
            return None;
        },
    };
    if !lit_at_exec(s, k, ",\"priority\":") || k + 12 >= n {
        return None;
    }
    let pk = k + 12;
    let code = s[pk] as u32;
    if code < 48 || code > 50 {
        return None;
    }
    let priority = match Priority::from_code((code - 48) as u8) {
        Some(p) => p,
        None => {
            return None;
        },
    };
    if !lit_at_exec(s, pk + 1, ",\"due_time\":") {
        return None;
    }
    let (due_time, q) = match parse_due_exec(s, pk + 13) {
        Some(x) => x,
        None => {
            return None;
        },
    };
    if q >= n || s[q] != '}' {
        return None;
    }
    Some((Task { description, completed, priority, due_time }, q + 1))
}

/// Why a text could not be read as a task list.
#[derive(Clone, Copy, Debug, PartialEq, Eq, Structural, Hash)]
pub enum DecodeError {
    /// The text does not follow the persistence format.
    Malformed,
}

impl DecodeError {
    /// A short description of the error.
    pub fn message(&self) -> (r: String)
        ensures
            r@ == "malformed task list"@,
    {
        String::from_str("malformed task list")
    }
}

/// The characters of `text`.
fn chars_of(text: &str) -> (r: Vec<char>)
    ensures
        r@ == text@,
{
    let n = text.unicode_len();
    let mut v: Vec<char> = Vec::new();
    let mut i: usize = 0;
    while i < n
        invariant
            n == text@.len(),
            i <= n,
            v@ == text@.take(i as int),
        decreases n - i,
    {
        v.push(text.get_char(i));
        assert(text@.take(i + 1) =~= text@.take(i as int).push(text@[i as int]));
        i = i + 1;
    }
    assert(text@.take(i as int) =~= text@);
    v
}

/// Reads a list written in the exact layout that `encode_tasks` gives.
fn decode_canonical(text: &str) -> (r: Result<Vec<Task>, DecodeError>)
    ensures
        match r {
            Ok(v) => parse_list(text@) == Some(v@.map_values(|t: Task| t@)) && (forall|i: int|
                0 <= i < v@.len() ==> task_wf(#[trigger] v@[i]@)),
            Err(_) => parse_list(text@) is None,
        },
{
    let s = chars_of(text);
    let n = s.len();
    let mut out: Vec<Task> = Vec::new();
    if n == 2 && s[0] == '[' && s[1] == ']' {
        assert(out@.map_values(|t: Task| t@) =~= Seq::<TaskView>::empty());
        return Ok(out);
    }
    if n == 0 || s[0] != '[' {
        return Err(DecodeError::Malformed);
    }
    let (first, mut i) = match parse_task_exec(&s, 1) {
        Some(x) => x,
        None => {
            return Err(DecodeError::Malformed);
        },
    };
    out.push(first);
    assert(out@.map_values(|t: Task| t@) =~= seq![out@[0]@]);
    while i < n
        invariant
            n == s.len(),
            s@ == text@,
            parse_list(s@) == match parse_items(s@, i as int) {
                Some(r) => Some(out@.map_values(|t: Task| t@) + r),
                None => None,
            },
            forall|k: int| 0 <= k < out@.len() ==> task_wf(#[trigger] out@[k]@),
        decreases n - i,
    {
        if s[i] == ']' {
            if i + 1 == n {
                assert(out@.map_values(|t: Task| t@) + Seq::<TaskView>::empty() =~= out@.map_values(
                    |t: Task| t@,
                ));
                return Ok(out);
            }
            return Err(DecodeError::Malformed);
        }
        if s[i] != ',' {
            return Err(DecodeError::Malformed);
        }
        match parse_task_exec(&s, i + 1) {
            Some((t, j)) => {
                let ghost before = out@;
                proof {
                    match parse_items(s@, j as int) {
                        Some(r) => {
                            assert(before.push(t).map_values(|t: Task| t@) + r =~= before.map_values(
                                |t: Task| t@,
                            ) + (seq![t@] + r));
                        },
                        None => {},
                    }
                }
                out.push(t);
                i = j;
            },
            None => {
                return Err(DecodeError::Malformed);
            },
        }
    }
    Err(DecodeError::Malformed)
}


// ---------------------------------------------------------------------------
// Reading back what was written gives the same list.
// ---------------------------------------------------------------------------

proof fn lemma_lit_split(s: Seq<char>, i: int, a: Seq<char>, b: Seq<char>)
    requires
        lit_at(s, i, a + b),
    ensures
        lit_at(s, i, a),
        lit_at(s, i + a.len(), b),
{
    let w = s.subrange(i, i + a.len() + b.len());
    assert(s.subrange(i, i + a.len()) =~= w.subrange(0, a.len() as int));
    assert(w.subrange(0, a.len() as int) =~= a);
    assert(s.subrange(i + a.len(), i + a.len() + b.len()) =~= w.subrange(
        a.len() as int,
        (a.len() + b.len()) as int,
    ));
    assert(w.subrange(a.len() as int, (a.len() + b.len()) as int) =~= b);
}

proof fn lemma_lit_index(s: Seq<char>, i: int, l: Seq<char>, k: int)
    requires
        lit_at(s, i, l),
        0 <= k < l.len(),
    ensures
        s[i + k] == l[k],
{
    assert(s.subrange(i, i + l.len())[k] == s[i + k]);
}

proof fn lemma_lit_str(s: Seq<char>, i: int, l: Seq<char>)
    requires
        0 <= i,
        i + l.len() <= s.len(),
        forall|k: int| 0 <= k < l.len() ==> s[i + k] == l[k],
    ensures
        lit_at(s, i, l),
{
    assert(s.subrange(i, i + l.len()) =~= l);
}

proof fn lemma_char_round_trip(s: Seq<char>, i: int, c: char)
    requires
        lit_at(s, i, enc_char(c)),
    ensures
        parse_char(s, i) == Some((c, i + enc_char(c).len())),
        s[i] != '"',
{
    let e = enc_char(c);
    lemma_lit_index(s, i, e, 0);
    match short_escape(c) {
        Some(esc) => {
            lemma_lit_index(s, i, e, 1);
        },
        None => {
            if (c as u32) < 0x20 {
                let v = c as u32;
                lemma_lit_index(s, i, e, 1);
                lemma_lit_index(s, i, e, 2);
                lemma_lit_index(s, i, e, 3);
                lemma_lit_index(s, i, e, 4);
                lemma_lit_index(s, i, e, 5);
                assert(16 * (v as int / 16) + v as int % 16 == v);
                assert(((v as u8) as char) == c);
            }
        },
    }
}

proof fn lemma_text_round_trip(s: Seq<char>, i: int, d: Seq<char>)
    requires
        lit_at(s, i, enc_text(d) + seq!['"']),
    ensures
        parse_text_rest(s, i) == Some((d, i + enc_text(d).len() + 1)),
    decreases d.len(),
{
    if d.len() == 0 {
        lemma_lit_index(s, i, enc_text(d) + seq!['"'], 0);
    } else {
        let c = enc_char(d[0]);
        let rest = enc_text(d.drop_first());
        assert(enc_text(d) + seq!['"'] =~= c + (rest + seq!['"']));
        lemma_lit_split(s, i, c, rest + seq!['"']);
        lemma_char_round_trip(s, i, d[0]);
        lemma_text_round_trip(s, i + c.len(), d.drop_first());
        assert(seq![d[0]] + d.drop_first() =~= d);
    }
}

proof fn lemma_digit(v: int)
    requires
        0 <= v < 10,
    ensures
        is_digit(digit(v)),
        digit_value(digit(v)) == v,
{
}

proof fn lemma_num2(s: Seq<char>, i: int, v: int)
    requires
        0 <= i,
        i + 2 <= s.len(),
        0 <= v < 100,
        s[i] == digit(v / 10),
        s[i + 1] == digit(v % 10),
    ensures
        is_digit(s[i]) && is_digit(s[i + 1]),
        num2(s, i) == v,
{
    lemma_digit(v / 10);
    lemma_digit(v % 10);
}

proof fn lemma_num4(s: Seq<char>, i: int, v: int)
    requires
        0 <= i,
        i + 4 <= s.len(),
        0 <= v < 10000,
        s[i] == digit(v / 1000),
        s[i + 1] == digit((v / 100) % 10),
        s[i + 2] == digit((v / 10) % 10),
        s[i + 3] == digit(v % 10),
    ensures
        is_digit(s[i]) && is_digit(s[i + 1]) && is_digit(s[i + 2]) && is_digit(s[i + 3]),
        num4(s, i) == v,
{
    lemma_digit(v / 1000);
    lemma_digit((v / 100) % 10);
    lemma_digit((v / 10) % 10);
    lemma_digit(v % 10);
}

proof fn lemma_datetime_round_trip(s: Seq<char>, i: int, dt: DateTime)
    requires
        dt.wf(),
        lit_at(s, i, enc_datetime(dt)),
    ensures
        parse_datetime(s, i) == Some((dt, i + 19)),
{
    let e = enc_datetime(dt);
    assert(e.len() == 19);
    assert forall|k: int| 0 <= k < 19 implies s[i + k] == #[trigger] e[k] by {
        lemma_lit_index(s, i, e, k);
    }
    assert(s[i] == e[0] && s[i + 1] == e[1] && s[i + 2] == e[2] && s[i + 3] == e[3]);
    assert(s[i + 4] == e[4] && s[i + 5] == e[5] && s[i + 6] == e[6] && s[i + 7] == e[7]);
    assert(s[i + 8] == e[8] && s[i + 9] == e[9] && s[i + 10] == e[10] && s[i + 11] == e[11]);
    assert(s[i + 12] == e[12] && s[i + 13] == e[13] && s[i + 14] == e[14] && s[i + 15] == e[15]);
    assert(s[i + 16] == e[16] && s[i + 17] == e[17] && s[i + 18] == e[18]);
    lemma_num4(s, i, dt.year as int);
    lemma_num2(s, i + 5, dt.month as int);
    lemma_num2(s, i + 8, dt.day as int);
    lemma_num2(s, i + 11, dt.hour as int);
    lemma_num2(s, i + 14, dt.minute as int);
    lemma_num2(s, i + 17, dt.second as int);
}

proof fn lemma_task_round_trip(s: Seq<char>, i: int, t: TaskView)
    requires
        task_wf(t),
        lit_at(s, i, enc_task(t)),
    ensures
        parse_task(s, i) == Some((t, i + enc_task(t).len())),
{
    reveal(parse_task);
    reveal_strlit("{\"description\":");
    reveal_strlit(",\"completed\":");
    reveal_strlit(",\"priority\":");
    reveal_strlit(",\"due_time\":");
    reveal_strlit("true");
    reveal_strlit("false");
    reveal_strlit("null");
    reveal_strlit("}");
    let k1 = "{\"description\":"@;
    let q = enc_quoted(t.description);
    let k2 = ",\"completed\":"@;
    let b = enc_bool(t.completed);
    let k3 = ",\"priority\":"@;
    let dg = seq![digit(rank(t.priority) as int)];
    let k4 = ",\"due_time\":"@;
    let due = enc_due(t.due_time);
    let close = "}"@;
    let x1 = k1 + q;
    let x2 = x1 + k2;
    let x3 = x2 + b;
    let x4 = x3 + k3;
    let x5 = x4 + dg;
    let x6 = x5 + k4;
    let x7 = x6 + due;
    assert(enc_task(t) == x7 + close);
    lemma_lit_split(s, i, x7, close);
    lemma_lit_split(s, i, x6, due);
    lemma_lit_split(s, i, x5, k4);
    lemma_lit_split(s, i, x4, dg);
    lemma_lit_split(s, i, x3, k3);
    lemma_lit_split(s, i, x2, b);
    lemma_lit_split(s, i, x1, k2);
    lemma_lit_split(s, i, k1, q);
    // the description
    let body = enc_text(t.description);
    assert(q =~= seq!['"'] + (body + seq!['"']));
    lemma_lit_split(s, i + 15, seq!['"'], body + seq!['"']);
    lemma_lit_index(s, i + 15, seq!['"'], 0);
    lemma_text_round_trip(s, i + 16, t.description);
    let j = i + x1.len();
    assert(j == i + 16 + body.len() + 1);
    // the completed flag
    if t.completed {
        assert(parse_bool(s, j + 13) == Some((true, j + 13 + 4)));
    } else {
        lemma_lit_index(s, j + 13, b, 0);
        assert(!lit_at(s, j + 13, "true"@)) by {
            if lit_at(s, j + 13, "true"@) {
                lemma_lit_index(s, j + 13, "true"@, 0);
            }
        }
        assert(parse_bool(s, j + 13) == Some((false, j + 13 + 5)));
    }
    let k = i + x3.len();
    let pk = k + 12;
    lemma_lit_index(s, pk, dg, 0);
    lemma_digit(rank(t.priority) as int);
    // the due time
    let m = pk + 1 + 12;
    assert(m == i + x6.len());
    match t.due_time {
        None => {
            assert(parse_due(s, m) == Some((None::<DateTime>, m + 4)));
        },
        Some(dt) => {
            let inner = enc_datetime(dt);
            assert(due =~= seq!['"'] + inner + seq!['"']);
            lemma_lit_split(s, m, seq!['"'] + inner, seq!['"']);
            lemma_lit_split(s, m, seq!['"'], inner);
            lemma_lit_index(s, m, seq!['"'], 0);
            lemma_lit_index(s, m + 1 + inner.len(), seq!['"'], 0);
            assert(!lit_at(s, m, "null"@)) by {
                if lit_at(s, m, "null"@) {
                    lemma_lit_index(s, m, "null"@, 0);
                }
            }
            lemma_datetime_round_trip(s, m + 1, dt);
            assert(parse_due(s, m) == Some((Some(dt), m + 21)));
        },
    }
    let qq = i + x7.len();
    lemma_lit_index(s, qq, close, 0);
}

proof fn lemma_items_round_trip(s: Seq<char>, i: int, ts: Seq<TaskView>)
    requires
        forall|k: int| 0 <= k < ts.len() ==> task_wf(#[trigger] ts[k]),
        lit_at(s, i, enc_rest(ts) + seq![']']),
        i + enc_rest(ts).len() + 1 == s.len(),
    ensures
        parse_items(s, i) == Some(ts),
    decreases ts.len(),
{
    let r = enc_rest(ts);
    lemma_lit_split(s, i, r, seq![']']);
    if ts.len() == 0 {
        lemma_lit_index(s, i, seq![']'], 0);
        assert(ts =~= Seq::<TaskView>::empty());
    } else {
        let et = enc_task(ts[0]);
        let tail = enc_rest(ts.drop_first());
        assert(r + seq![']'] =~= seq![','] + (et + (tail + seq![']'])));
        lemma_lit_split(s, i, seq![','], et + (tail + seq![']']));
        lemma_lit_split(s, i + 1, et, tail + seq![']']);
        lemma_lit_index(s, i, seq![','], 0);
        lemma_task_round_trip(s, i + 1, ts[0]);
        reveal_strlit("{\"description\":");
        lemma_items_round_trip(s, i + 1 + et.len(), ts.drop_first());
        assert(seq![ts[0]] + ts.drop_first() =~= ts);
    }
}

/// Reading back the text of a list gives the same list: every task with the
/// same description, flag, priority and due time, in the same order.
pub proof fn lemma_round_trip(ts: Seq<TaskView>)
    requires
        forall|k: int| 0 <= k < ts.len() ==> task_wf(#[trigger] ts[k]),
    ensures
        parse_list(enc_list(ts)) == Some(ts),
{
    reveal_strlit("[]");
    reveal_strlit("{\"description\":");
    let s = enc_list(ts);
    if ts.len() == 0 {
        assert(ts =~= Seq::<TaskView>::empty());
    } else {
        let et = enc_task(ts[0]);
        let tail = enc_rest(ts.drop_first());
        assert(s =~= seq!['['] + (et + (tail + seq![']'])));
        assert(lit_at(s, 0, s)) by {
            assert(s.subrange(0, s.len() as int) =~= s);
        }
        lemma_lit_split(s, 0, seq!['['], et + (tail + seq![']']));
        lemma_lit_split(s, 1, et, tail + seq![']']);
        lemma_lit_index(s, 0, seq!['['], 0);
        lemma_task_round_trip(s, 1, ts[0]);
        lemma_items_round_trip(s, 1 + et.len() as int, ts.drop_first());
        assert(seq![ts[0]] + ts.drop_first() =~= ts);
    }
}


impl Task {
    /// The record of `self` in the persistence format.
    pub fn to_json(&self) -> (r: String)
        requires
            task_wf(self@),
        ensures
            r@ == enc_task(self@),
    {
        let mut out = String::new();
        write_task(&mut out, self);
        assert(out@ =~= Seq::<char>::empty() + enc_task(self@));
        out
    }

    /// Reads a text that holds one task record, in any layout that JSON allows.
    pub fn from_json(text: &str) -> (r: Result<Task, DecodeError>)
        ensures
            match r {
                Ok(t) => stored_task(text@) == Some(t@) && task_wf(t@),
                Err(_) => stored_task(text@) is None,
            },
    {
        let s = chars_of(text);
        if let Some((t, j)) = parse_task_exec(&s, 0) {
            if j == s.len() {
                return Ok(t);
            }
        }
        match parse_json(text) {
            Some(v) => match record_from_value(&v) {
                Some(t) => Ok(t),
                None => Err(DecodeError::Malformed),
            },
            None => Err(DecodeError::Malformed),
        }
    }
}

/// A record read back from what `to_json` wrote is the same task.
pub proof fn lemma_task_json_round_trip(t: TaskView)
    requires
        task_wf(t),
    ensures
        parse_task(enc_task(t), 0) == Some((t, enc_task(t).len() as int)),
        stored_task(enc_task(t)) == Some(t),
{
    let s = enc_task(t);
    assert(s.subrange(0, s.len() as int) =~= s);
    lemma_task_round_trip(s, 0, t);
}


// ---------------------------------------------------------------------------
// Reading a stored list in any layout that JSON allows: whitespace between
// tokens, members in any order, other members, and no `due_time` member.
// ---------------------------------------------------------------------------

/// The due time of a record: absent or `null` for none, else a timestamp.
pub open spec fn due_member_spec(m: Map<Seq<char>, JsonTree>) -> Option<Option<DateTime>> {
    if !m.contains_key("due_time"@) {
        Some(None)
    } else {
        match m["due_time"@] {
            JsonTree::Null => Some(None),
            JsonTree::Str(s) => match stored_datetime_spec(s) {
                Some(d) => Some(Some(d)),
                None => None,
            },
            _ => None,
        }
    }
}

/// The task that a JSON record holds, if it is one.
pub open spec fn record_spec(t: JsonTree) -> Option<TaskView> {
    match t {
        JsonTree::Object(m) => {
            if m.contains_key("description"@) && m["description"@] is Str && m.contains_key(
                "completed"@,
            ) && m["completed"@] is Bool && m.contains_key("priority"@) && m["priority"@] is Int
                && priority_of_code(m["priority"@]->Int_0) is Some && due_member_spec(m) is Some {
                Some(
                    TaskView {
                        description: m["description"@]->Str_0,
                        completed: m["completed"@]->Bool_0,
                        priority: priority_of_code(m["priority"@]->Int_0)->0,
                        due_time: due_member_spec(m)->0,
                    },
                )
            } else {
                None
            }
        },
        _ => None,
    }
}

/// The tasks that a JSON array of records holds, if it is one.
pub open spec fn list_spec(t: JsonTree) -> Option<Seq<TaskView>> {
    match t {
        JsonTree::Array(items) => if forall|i: int|
            0 <= i < items.len() ==> (#[trigger] record_spec(items[i])) is Some {
            Some(items.map_values(|x: JsonTree| record_spec(x)->0))
        } else {
            None
        },
        _ => None,
    }
}

/// The list that a stored text holds: the exact layout that `encode_tasks`
/// writes, or else any JSON text of an array of records.
pub open spec fn stored_list(s: Seq<char>) -> Option<Seq<TaskView>> {
    match parse_list(s) {
        Some(ts) => Some(ts),
        None => match json_parse(s) {
            Some(t) => list_spec(t),
            None => None,
        },
    }
}

/// The task that a stored record holds, in either form.
pub open spec fn stored_task(s: Seq<char>) -> Option<TaskView> {
    match parse_task(s, 0) {
        Some((t, j)) if j == s.len() => Some(t),
        _ => match json_parse(s) {
            Some(t) => record_spec(t),
            None => None,
        },
    }
}

fn due_member(v: &serde_json::Value) -> (r: Option<Option<DateTime>>)
    requires
        json_tree(*v) is Object,
    ensures
        r == due_member_spec(json_tree(*v)->Object_0),
        r matches Some(Some(d)) ==> d.wf(),
{
    match member(v, "due_time") {
        None => Some(None),
        Some(d) => {
            if is_null(d) {
                return Some(None);
            }
            match as_str(d) {
                Some(s) => match parse_stored_datetime(s) {
                    Some(dt) => Some(Some(dt)),
                    None => None,
                },
                None => None,
            }
        },
    }
}

fn record_from_value(v: &serde_json::Value) -> (r: Option<Task>)
    ensures
        match r {
            Some(t) => record_spec(json_tree(*v)) == Some(t@) && task_wf(t@),
            None => record_spec(json_tree(*v)) is None,
        },
{
    if !is_object(v) {
        return None;
    }
    let description = match member(v, "description") {
        Some(d) => match as_str(d) {
            Some(s) => s.to_string(),
            None => {
                return None;
            },
        },
        None => {
            return None;
        },
    };
    let completed = match member(v, "completed") {
        Some(c) => match as_bool(c) {
            Some(b) => b,
            None => {
                return None;
            },
        },
        None => {
            return None;
        },
    };
    let pv = match member(v, "priority") {
        Some(p) => p,
        None => {
            return None;
        },
    };
    let code = match as_u64(pv) {
        Some(c) => c,
        None => {
            return None;
        },
    };
    if code > 2 {
        return None;
    }
    let priority = match Priority::from_code(code as u8) {
        Some(p) => p,
        None => {
            return None;
        },
    };
    let due_time = match due_member(v) {
        Some(d) => d,
        None => {
            return None;
        },
    };
    Some(Task { description, completed, priority, due_time })
}

fn tasks_from_value(v: &serde_json::Value) -> (r: Option<Vec<Task>>)
    ensures
        match r {
            Some(ts) => list_spec(json_tree(*v)) == Some(ts@.map_values(|t: Task| t@)) && (forall|
                i: int,
            | 0 <= i < ts@.len() ==> task_wf(#[trigger] ts@[i]@)),
            None => list_spec(json_tree(*v)) is None,
        },
{
    let items = match as_array(v) {
        Some(a) => a,
        None => {
            return None;
        },
    };
    let ghost trees = json_tree(*v)->Array_0;
    let mut out: Vec<Task> = Vec::new();
    let mut i: usize = 0;
    while i < items.len()
        invariant
            i <= items@.len(),
            items@.len() == trees.len(),
            json_tree(*v) == JsonTree::Array(trees),
            forall|k: int| 0 <= k < trees.len() ==> json_tree(#[trigger] items@[k]) == trees[k],
            out@.len() == i,
            forall|k: int|
                0 <= k < i ==> record_spec(trees[k]) == Some(#[trigger] out@[k]@) && task_wf(
                    out@[k]@,
                ),
        decreases items@.len() - i,
    {
        match record_from_value(&items[i]) {
            Some(t) => {
                out.push(t);
            },
            None => {
                assert(record_spec(trees[i as int]) is None);
                return None;
            },
        }
        i = i + 1;
    }
    assert(forall|k: int| 0 <= k < trees.len() ==> (#[trigger] record_spec(trees[k])) is Some) by {
        assert forall|k: int| 0 <= k < trees.len() implies (#[trigger] record_spec(trees[k])) is Some by {
            assert(record_spec(trees[k]) == Some(out@[k]@));
        }
    }
    assert(out@.map_values(|t: Task| t@) =~= trees.map_values(|x: JsonTree| record_spec(x)->0));
    Some(out)
}

/// Reads a stored task list: the layout that `encode_tasks` writes, or any
/// other JSON text of an array of records.
pub fn decode_tasks(text: &str) -> (r: Result<Vec<Task>, DecodeError>)
    ensures
        match r {
            Ok(v) => stored_list(text@) == Some(v@.map_values(|t: Task| t@)) && (forall|i: int|
                0 <= i < v@.len() ==> task_wf(#[trigger] v@[i]@)),
            Err(_) => stored_list(text@) is None,
        },
{
    if let Ok(v) = decode_canonical(text) {
        return Ok(v);
    }
    match parse_json(text) {
        Some(val) => match tasks_from_value(&val) {
            Some(v) => Ok(v),
            None => Err(DecodeError::Malformed),
        },
        None => Err(DecodeError::Malformed),
    }
}

} // verus!
