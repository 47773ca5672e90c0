//! Applying a configuration to the text of `main/config.h`.

use vstd::prelude::*;

use crate::firmware::config::{field_type, field_value, FieldType, FirmwareConfig};
use crate::text::{
    append_chars, append_str, chars_of, dec_digits, has_prefix, is_ws, join, join_chars,
    leading_ws_len, lemma_dec_digits, lemma_digit_char_kind, lemma_trim_start_indented,
    lemma_trim_start_shape, line_text, lines, lines_of, ends_with_newline, ends_with_cr,
    lemma_lines_of_line_text, lemma_lines_pieces, signed_dec, signed_dec_chars, starts_with, string_of,
    sub_chars, trim_start, views,
};

verus! {

/// The `#define` name of parameter `i` in `config.h`.
pub open spec fn define_name(i: int) -> Seq<char> {
    if i == 0 {
        "MOTOR_POLES"@
    } else if i == 1 {
        "F_MOSFET"@
    } else if i == 2 {
        "DEAD_TIME"@
    } else if i == 3 {
        "EMULATE_HALL"@
    } else if i == 4 {
        "TIM3_FREQ"@
    } else if i == 5 {
        "COMMUTATION_TICKS_STOPPED"@
    } else if i == 6 {
        "TURN_OFF_MODE"@
    } else if i == 7 {
        "IPHASE_GAIN"@
    } else if i == 8 {
        "IPHASE_SENSE_RESISTOR"@
    } else if i == 9 {
        "IBUS_GAIN"@
    } else if i == 10 {
        "IBUS_SENSE_RESISTOR"@
    } else if i == 11 {
        "IBUS_WARNING_THRESHOLD"@
    } else if i == 12 {
        "IBUS_ERROR_THRESHOLD"@
    } else if i == 13 {
        "IBUS_FAULT_ENABLE"@
    } else if i == 14 {
        "SPEED_CONTROL_METHOD"@
    } else if i == 15 {
        "SPEED_CONTROLLER_TIME_BASE"@
    } else if i == 16 {
        "SPEED_CONTROLLER_MAX_DELTA"@
    } else if i == 17 {
        "SPEED_CONTROLLER_MAX_SPEED"@
    } else if i == 18 {
        "PID_K_P"@
    } else if i == 19 {
        "PID_K_I"@
    } else if i == 20 {
        "PID_K_D_ENABLE"@
    } else if i == 21 {
        "PID_K_D"@
    } else if i == 22 {
        "VBUS_RTOP"@
    } else if i == 23 {
        "VBUS_RBOTTOM"@
    } else if i == 24 {
        "WAIT_FOR_BOARD"@
    } else {
        "REMOTE_DEBUG_MODE"@
    }
}

/// The `#define` name of parameter `i`.
fn define_name_of(i: usize) -> (r: &'static str)
    ensures
        r@ == define_name(i as int),
{
    match i {
        0 => "MOTOR_POLES",
        1 => "F_MOSFET",
        2 => "DEAD_TIME",
        3 => "EMULATE_HALL",
        4 => "TIM3_FREQ",
        5 => "COMMUTATION_TICKS_STOPPED",
        6 => "TURN_OFF_MODE",
        7 => "IPHASE_GAIN",
        8 => "IPHASE_SENSE_RESISTOR",
        9 => "IBUS_GAIN",
        10 => "IBUS_SENSE_RESISTOR",
        11 => "IBUS_WARNING_THRESHOLD",
        12 => "IBUS_ERROR_THRESHOLD",
        13 => "IBUS_FAULT_ENABLE",
        14 => "SPEED_CONTROL_METHOD",
        15 => "SPEED_CONTROLLER_TIME_BASE",
        16 => "SPEED_CONTROLLER_MAX_DELTA",
        17 => "SPEED_CONTROLLER_MAX_SPEED",
        18 => "PID_K_P",
        19 => "PID_K_I",
        20 => "PID_K_D_ENABLE",
        21 => "PID_K_D",
        22 => "VBUS_RTOP",
        23 => "VBUS_RBOTTOM",
        24 => "WAIT_FOR_BOARD",
        _ => "REMOTE_DEBUG_MODE",
    }
}

/// The `config.h` spelling of a switch.
pub open spec fn bool_define_text(v: bool) -> Seq<char> {
    if v {
        "TRUE"@
    } else {
        "FALSE"@
    }
}

/// The `config.h` spelling of a switch: `TRUE` or `FALSE`.
pub fn bool_define(v: bool) -> (r: String)
    ensures
        r@ == bool_define_text(v),
{
    if v {
        string_of(&chars_of("TRUE"))
    } else {
        string_of(&chars_of("FALSE"))
    }
}

/// The `config.h` value text of parameter `i` of `c`: switches as
/// `TRUE`/`FALSE`, the turn-off mode and speed control method by their
/// symbolic names, the frequencies and dead time with a `UL` suffix, any
/// other number in decimal.
pub open spec fn define_value(c: FirmwareConfig, i: int) -> Seq<char> {
    let x = field_value(c, i);
    if field_type(i) == FieldType::Flag {
        bool_define_text(x != 0)
    } else if i == 6 {
        if x == 0 {
            "TURN_OFF_MODE_COAST"@
        } else {
            "TURN_OFF_MODE_RAMP"@
        }
    } else if i == 14 {
        if x == 0 {
            "SPEED_CONTROL_OPEN_LOOP"@
        } else {
            "SPEED_CONTROL_CLOSED_LOOP"@
        }
    } else if i == 1 || i == 2 || i == 4 {
        signed_dec(x) + "UL"@
    } else {
        signed_dec(x)
    }
}

/// The value text of parameter `i` (see [`define_value`]).
fn define_value_of(c: &FirmwareConfig, i: usize) -> (r: Vec<char>)
    requires
        i < 26,
    ensures
        r@ == define_value(*c, i as int),
{
    let x = c.field(i);
    if crate::firmware::config::field_type_of(i) == FieldType::Flag {
        chars_of(if x != 0 { "TRUE" } else { "FALSE" })
    } else if i == 6 {
        chars_of(if x == 0 { "TURN_OFF_MODE_COAST" } else { "TURN_OFF_MODE_RAMP" })
    } else if i == 14 {
        chars_of(if x == 0 { "SPEED_CONTROL_OPEN_LOOP" } else { "SPEED_CONTROL_CLOSED_LOOP" })
    } else {
        assert(x > i64::MIN);
        let mut r = signed_dec_chars(x);
        if i == 1 || i == 2 || i == 4 {
            append_str(&mut r, "UL");
        }
        r
    }
}

/// The start of a line that defines `name`: `#define NAME ` (after any
/// indentation).
pub open spec fn define_prefix(name: Seq<char>) -> Seq<char> {
    "#define "@ + name + " "@
}

/// A character that ends the old value of a define line.
pub open spec fn is_value_stop(c: char) -> bool {
    c == '/' || c == ' ' || c == '\t'
}

/// The length of the old value at the start of `s`: up to the first `/`,
/// space or tab.
pub open spec fn value_end(s: Seq<char>) -> int
    decreases s.len(),
{
    if s.len() == 0 {
        0
    } else if is_value_stop(s[0]) {
        0
    } else {
        1 + value_end(s.drop_first())
    }
}

/// `line` defines the name whose prefix is `prefix`.
pub open spec fn line_matches(line: Seq<char>, prefix: Seq<char>) -> bool {
    has_prefix(trim_start(line), prefix)
}

/// A matching define line with its old value replaced by `value`: the
/// indentation, the prefix and everything after the old value are kept.
pub open spec fn patched_line(line: Seq<char>, prefix: Seq<char>, value: Seq<char>) -> Seq<char> {
    let t = trim_start(line);
    let after = t.skip(prefix.len() as int);
    line.take(line.len() - t.len()) + prefix + value + after.skip(value_end(after))
}

/// The index of the first line matching `prefix` (`ls.len()` when none does).
pub open spec fn first_match(ls: Seq<Seq<char>>, prefix: Seq<char>) -> int
    decreases ls.len(),
{
    if ls.len() == 0 {
        0
    } else if line_matches(ls[0], prefix) {
        0
    } else {
        1 + first_match(ls.drop_first(), prefix)
    }
}

/// The lines with the first line matching `prefix` patched to `value`.
pub open spec fn apply_define(ls: Seq<Seq<char>>, prefix: Seq<char>, value: Seq<char>) -> Seq<
    Seq<char>,
> {
    let j = first_match(ls, prefix);
    if j < ls.len() {
        ls.update(j, patched_line(ls[j], prefix, value))
    } else {
        ls
    }
}

/// The lines with the defines of the first `n` parameters applied, in order.
pub open spec fn apply_defines(ls: Seq<Seq<char>>, c: FirmwareConfig, n: nat) -> Seq<Seq<char>>
    decreases n,
{
    if n == 0 {
        ls
    } else {
        apply_define(
            apply_defines(ls, c, (n - 1) as nat),
            define_prefix(define_name(n - 1)),
            define_value(c, n - 1),
        )
    }
}

/// The patched `config.h` text: the lines of `source` (as `str::lines`
/// gives them) with every parameter's define applied, joined with `\n`,
/// and a final `\n` when `source` ends with one.
pub open spec fn patch_config(source: Seq<char>, c: FirmwareConfig) -> Seq<char> {
    line_text(apply_defines(lines(source), c, 26), ends_with_newline(source))
}

proof fn lemma_value_end_at(s: Seq<char>, k: int)
    requires
        0 <= k <= s.len(),
        forall|i: int| 0 <= i < k ==> !is_value_stop(#[trigger] s[i]),
        k == s.len() || is_value_stop(s[k]),
    ensures
        value_end(s) == k,
    decreases k,
{
    if k > 0 {
        assert forall|i: int| 0 <= i < k - 1 implies !is_value_stop(#[trigger] s.drop_first()[i]) by {
            assert(s.drop_first()[i] == s[i + 1]);
        }
        if k < s.len() {
            assert(s.drop_first()[k - 1] == s[k]);
        }
        lemma_value_end_at(s.drop_first(), k - 1);
    }
}

proof fn lemma_first_match_at(ls: Seq<Seq<char>>, prefix: Seq<char>, j: int)
    requires
        0 <= j <= ls.len(),
        forall|k: int| 0 <= k < j ==> !line_matches(#[trigger] ls[k], prefix),
        j == ls.len() || line_matches(ls[j], prefix),
    ensures
        first_match(ls, prefix) == j,
    decreases j,
{
    if j > 0 {
        assert forall|k: int| 0 <= k < j - 1 implies !line_matches(
            #[trigger] ls.drop_first()[k],
            prefix,
        ) by {
            assert(ls.drop_first()[k] == ls[k + 1]);
        }
        if j < ls.len() {
            assert(ls.drop_first()[j - 1] == ls[j]);
        }
        lemma_first_match_at(ls.drop_first(), prefix, j - 1);
    }
}

/// A matching line with its value replaced (see [`patched_line`]).
fn patch_line(line: &Vec<char>, prefix: &Vec<char>, value: &Vec<char>) -> (r: Vec<char>)
    requires
        line_matches(line@, prefix@),
    ensures
        r@ == patched_line(line@, prefix@, value@),
{
    let a = leading_ws_len(line);
    let ghost t = trim_start(line@);
    let start = a + prefix.len();
    let ghost after = t.skip(prefix@.len() as int);
    assert(after =~= line@.subrange(start as int, line@.len() as int));
    let mut k: usize = start;
    while k < line.len() && !(line[k] == '/' || line[k] == ' ' || line[k] == '\t')
        invariant
            start <= k <= line.len(),
            forall|i: int| start <= i < k ==> !is_value_stop(#[trigger] line@[i]),
        decreases line.len() - k,
    {
        k = k + 1;
    }
    proof {
        assert forall|i: int| 0 <= i < k - start implies !is_value_stop(#[trigger] after[i]) by {
            assert(after[i] == line@[start + i]);
        }
        if k < line.len() {
            assert(after[k - start] == line@[k as int]);
        }
        lemma_value_end_at(after, k - start);
    }
    let mut r = sub_chars(line, 0, a);
    append_chars(&mut r, prefix);
    append_chars(&mut r, value);
    let tail = sub_chars(line, k, line.len());
    append_chars(&mut r, &tail);
    assert(line@.take(line@.len() - t.len()) =~= line@.subrange(0, a as int));
    assert(after.skip(value_end(after)) =~= line@.subrange(k as int, line@.len() as int));
    r
}

/// Whether `line` defines the name whose prefix is `prefix`.
fn matches_prefix(line: &Vec<char>, prefix: &Vec<char>) -> (r: bool)
    ensures
        r == line_matches(line@, prefix@),
{
    let a = leading_ws_len(line);
    let t = sub_chars(line, a, line.len());
    starts_with(&t, prefix)
}

/// Apply the config values to a config.h source file string, replacing
/// each `#define PARAM value` line with the new value.
pub fn patch_config_h(source: &str, config: &FirmwareConfig) -> (r: String)
    ensures
        r@ == patch_config(source@, *config),
{
    let src = chars_of(source);
    let mut ls = lines_of(&src);
    let mut i: usize = 0;
    while i < 26
        invariant
            i <= 26,
            views(ls@) == apply_defines(lines(source@), *config, i as nat),
            src@ == source@,
        decreases 26 - i,
    {
        let mut prefix: Vec<char> = Vec::new();
        append_str(&mut prefix, "#define ");
        append_str(&mut prefix, define_name_of(i));
        append_str(&mut prefix, " ");
        let value = define_value_of(config, i);
        let ghost before = views(ls@);
        let mut j: usize = 0;
        let mut found = false;
        while j < ls.len() && !found
            invariant
                j <= ls.len(),
                views(ls@) == before,
                !found ==> forall|k: int| 0 <= k < j ==> !line_matches(#[trigger] before[k], prefix@),
                found ==> (forall|k: int| 0 <= k < j - 1 ==> !line_matches(#[trigger] before[k], prefix@))
                    && j >= 1 && line_matches(before[j - 1], prefix@),
            decreases ls.len() - j + (if found { 0int } else { 1int }),
        {
            assert(before[j as int] == ls@[j as int]@);
            if matches_prefix(&ls[j], &prefix) {
                found = true;
            }
            j = j + 1;
        }
        if found {
            let m = j - 1;
            proof {
                lemma_first_match_at(before, prefix@, m as int);
            }
            let new_line = patch_line(&ls[m], &prefix, &value);
            ls.set(m, new_line);
            assert(views(ls@) =~= apply_define(before, prefix@, value@));
        } else {
            proof {
                lemma_first_match_at(before, prefix@, before.len() as int);
            }
        }
        i = i + 1;
    }
    let sep = chars_of("\n");
    let mut body = join_chars(&ls, &sep);
    if src.len() > 0 && src[src.len() - 1] == '\n' {
        append_str(&mut body, "\n");
    }
    string_of(&body)
}

// ---------------------------------------------------------------------------
// What patching does to the define lines
// ---------------------------------------------------------------------------

/// The start of the define line of parameter `i`.
pub open spec fn param_prefix(i: int) -> Seq<char> {
    define_prefix(define_name(i))
}

/// The value written on a define line: what follows the prefix, up to the
/// first `/`, space or tab.
pub open spec fn define_line_value(line: Seq<char>, prefix: Seq<char>) -> Seq<char> {
    let after = trim_start(line).skip(prefix.len() as int);
    after.take(value_end(after))
}

/// Every define name is a non-empty word without spaces.
proof fn lemma_define_name_shape(i: int)
    requires
        0 <= i < 26,
    ensures
        define_name(i).len() >= 1,
        forall|j: int| 0 <= j < define_name(i).len() ==> #[trigger] define_name(i)[j] != ' ',
        !define_name(i).contains('\n'),
        !define_name(i).contains('\r'),
{
    reveal_strlit("MOTOR_POLES");
    reveal_strlit("F_MOSFET");
    reveal_strlit("DEAD_TIME");
    reveal_strlit("EMULATE_HALL");
    reveal_strlit("TIM3_FREQ");
    reveal_strlit("COMMUTATION_TICKS_STOPPED");
    reveal_strlit("TURN_OFF_MODE");
    reveal_strlit("IPHASE_GAIN");
    reveal_strlit("IPHASE_SENSE_RESISTOR");
    reveal_strlit("IBUS_GAIN");
    reveal_strlit("IBUS_SENSE_RESISTOR");
    reveal_strlit("IBUS_WARNING_THRESHOLD");
    reveal_strlit("IBUS_ERROR_THRESHOLD");
    reveal_strlit("IBUS_FAULT_ENABLE");
    reveal_strlit("SPEED_CONTROL_METHOD");
    reveal_strlit("SPEED_CONTROLLER_TIME_BASE");
    reveal_strlit("SPEED_CONTROLLER_MAX_DELTA");
    reveal_strlit("SPEED_CONTROLLER_MAX_SPEED");
    reveal_strlit("PID_K_P");
    reveal_strlit("PID_K_I");
    reveal_strlit("PID_K_D_ENABLE");
    reveal_strlit("PID_K_D");
    reveal_strlit("VBUS_RTOP");
    reveal_strlit("VBUS_RBOTTOM");
    reveal_strlit("WAIT_FOR_BOARD");
    reveal_strlit("REMOTE_DEBUG_MODE");
}

/// The length, first and last character of define name `i`; no two
/// names agree in all three.
spec fn name_key(i: int) -> (int, char, char) {
    if i == 0 {
        (11, 'M', 'S')
    } else if i == 1 {
        (8, 'F', 'T')
    } else if i == 2 {
        (9, 'D', 'E')
    } else if i == 3 {
        (12, 'E', 'L')
    } else if i == 4 {
        (9, 'T', 'Q')
    } else if i == 5 {
        (25, 'C', 'D')
    } else if i == 6 {
        (13, 'T', 'E')
    } else if i == 7 {
        (11, 'I', 'N')
    } else if i == 8 {
        (21, 'I', 'R')
    } else if i == 9 {
        (9, 'I', 'N')
    } else if i == 10 {
        (19, 'I', 'R')
    } else if i == 11 {
        (22, 'I', 'D')
    } else if i == 12 {
        (20, 'I', 'D')
    } else if i == 13 {
        (17, 'I', 'E')
    } else if i == 14 {
        (20, 'S', 'D')
    } else if i == 15 {
        (26, 'S', 'E')
    } else if i == 16 {
        (26, 'S', 'A')
    } else if i == 17 {
        (26, 'S', 'D')
    } else if i == 18 {
        (7, 'P', 'P')
    } else if i == 19 {
        (7, 'P', 'I')
    } else if i == 20 {
        (14, 'P', 'E')
    } else if i == 21 {
        (7, 'P', 'D')
    } else if i == 22 {
        (9, 'V', 'P')
    } else if i == 23 {
        (12, 'V', 'M')
    } else if i == 24 {
        (14, 'W', 'D')
    } else {
        (17, 'R', 'E')
    }
}

proof fn lemma_name_key(i: int)
    requires
        0 <= i < 26,
    ensures
        name_key(i) == (define_name(i).len() as int, define_name(i)[0], define_name(i).last()),
{
    reveal_strlit("MOTOR_POLES");
    reveal_strlit("F_MOSFET");
    reveal_strlit("DEAD_TIME");
    reveal_strlit("EMULATE_HALL");
    reveal_strlit("TIM3_FREQ");
    reveal_strlit("COMMUTATION_TICKS_STOPPED");
    reveal_strlit("TURN_OFF_MODE");
    reveal_strlit("IPHASE_GAIN");
    reveal_strlit("IPHASE_SENSE_RESISTOR");
    reveal_strlit("IBUS_GAIN");
    reveal_strlit("IBUS_SENSE_RESISTOR");
    reveal_strlit("IBUS_WARNING_THRESHOLD");
    reveal_strlit("IBUS_ERROR_THRESHOLD");
    reveal_strlit("IBUS_FAULT_ENABLE");
    reveal_strlit("SPEED_CONTROL_METHOD");
    reveal_strlit("SPEED_CONTROLLER_TIME_BASE");
    reveal_strlit("SPEED_CONTROLLER_MAX_DELTA");
    reveal_strlit("SPEED_CONTROLLER_MAX_SPEED");
    reveal_strlit("PID_K_P");
    reveal_strlit("PID_K_I");
    reveal_strlit("PID_K_D_ENABLE");
    reveal_strlit("PID_K_D");
    reveal_strlit("VBUS_RTOP");
    reveal_strlit("VBUS_RBOTTOM");
    reveal_strlit("WAIT_FOR_BOARD");
    reveal_strlit("REMOTE_DEBUG_MODE");
}

/// No two parameters share a define name.
proof fn lemma_define_names_distinct(i: int, k: int)
    requires
        0 <= i < 26,
        0 <= k < 26,
        i != k,
    ensures
        define_name(i) != define_name(k),
{
    lemma_name_key(i);
    lemma_name_key(k);
    assert(name_key(i) != name_key(k));
}

/// The prefix of every define line is `#define `, the name and a space.
proof fn lemma_param_prefix_shape(i: int)
    requires
        0 <= i < 26,
    ensures
        param_prefix(i).len() == define_name(i).len() + 9,
        param_prefix(i).len() >= 10,
        param_prefix(i)[0] == '#',
        param_prefix(i).last() == ' ',
        param_prefix(i).subrange(8, param_prefix(i).len() - 1) == define_name(i),
        forall|j: int| 8 <= j < param_prefix(i).len() - 1 ==> #[trigger] param_prefix(i)[j] != ' ',
        !param_prefix(i).contains('\n'),
        !param_prefix(i).contains('\r'),
{
    reveal_strlit("#define ");
    reveal_strlit(" ");
    lemma_define_name_shape(i);
    let p = param_prefix(i);
    let n = define_name(i);
    assert(p.subrange(8, p.len() - 1) =~= n);
    assert forall|j: int| 8 <= j < p.len() - 1 implies #[trigger] p[j] != ' ' by {
        assert(p[j] == n[j - 8]);
    }
    if p.contains('\n') {
        let j = choose|j: int| 0 <= j < p.len() && p[j] == '\n';
        if 8 <= j < p.len() - 1 {
            assert(p[j] == n[j - 8]);
        }
    }
    if p.contains('\r') {
        let j = choose|j: int| 0 <= j < p.len() && p[j] == '\r';
        if 8 <= j < p.len() - 1 {
            assert(p[j] == n[j - 8]);
        }
    }
}

/// A line defines at most one parameter: no define prefix begins another.
proof fn lemma_one_define_per_line(t: Seq<char>, i: int, k: int)
    requires
        0 <= i < 26,
        0 <= k < 26,
        has_prefix(t, param_prefix(i)),
        has_prefix(t, param_prefix(k)),
    ensures
        i == k,
{
    lemma_param_prefix_shape(i);
    lemma_param_prefix_shape(k);
    let p = param_prefix(i);
    let q = param_prefix(k);
    if p.len() < q.len() {
        assert(p[p.len() - 1] == t.take(p.len() as int)[p.len() - 1]);
        assert(q[p.len() - 1] == t.take(q.len() as int)[p.len() - 1]);
        assert(q[p.len() - 1] != ' ');
    } else if q.len() < p.len() {
        assert(q[q.len() - 1] == t.take(q.len() as int)[q.len() - 1]);
        assert(p[q.len() - 1] == t.take(p.len() as int)[q.len() - 1]);
        assert(p[q.len() - 1] != ' ');
    } else {
        assert(p =~= q);
        if i != k {
            lemma_define_names_distinct(i, k);
        }
    }
}

/// A value text holds no character that ends a value.
proof fn lemma_define_value_plain(c: FirmwareConfig, i: int)
    requires
        0 <= i < 26,
    ensures
        forall|j: int| 0 <= j < define_value(c, i).len() ==> !is_value_stop(
            #[trigger] define_value(c, i)[j],
        ) && define_value(c, i)[j] != '\n' && define_value(c, i)[j] != '\r',
{
    reveal_strlit("TRUE");
    reveal_strlit("FALSE");
    reveal_strlit("TURN_OFF_MODE_COAST");
    reveal_strlit("TURN_OFF_MODE_RAMP");
    reveal_strlit("SPEED_CONTROL_OPEN_LOOP");
    reveal_strlit("SPEED_CONTROL_CLOSED_LOOP");
    reveal_strlit("UL");
    let x = field_value(c, i);
    let m: nat = if x < 0 { (-x) as nat } else { x as nat };
    let d = dec_digits(m);
    lemma_dec_digits(m);
    assert forall|j: int| 0 <= j < d.len() implies !is_value_stop(#[trigger] d[j]) && d[j] != '\n' && d[j] != '\r' by {
        lemma_digit_char_kind(d[j]);
    }
    let sd = signed_dec(x);
    assert forall|j: int| 0 <= j < sd.len() implies !is_value_stop(#[trigger] sd[j]) && sd[j] != '\n' && sd[j] != '\r' by {
        if x < 0 {
            if j > 0 {
                assert(sd[j] == d[j - 1]);
            }
        }
    }
    let v = define_value(c, i);
    assert forall|j: int| 0 <= j < v.len() implies !is_value_stop(#[trigger] v[j]) && v[j] != '\n' && v[j] != '\r' by {
        if !(field_type(i) == FieldType::Flag) && i != 6 && i != 14 && (i == 1 || i == 2 || i
            == 4) {
            if j >= sd.len() {
                assert(v[j] == "UL"@[j - sd.len()]);
            } else {
                assert(v[j] == sd[j]);
            }
        }
    }
}

proof fn lemma_value_end_props(s: Seq<char>)
    ensures
        0 <= value_end(s) <= s.len(),
        forall|j: int| 0 <= j < value_end(s) ==> !is_value_stop(#[trigger] s[j]),
        value_end(s) < s.len() ==> is_value_stop(s[value_end(s)]),
    decreases s.len(),
{
    if s.len() > 0 && !is_value_stop(s[0]) {
        lemma_value_end_props(s.drop_first());
        assert forall|j: int| 0 <= j < value_end(s) implies !is_value_stop(#[trigger] s[j]) by {
            if j > 0 {
                assert(s[j] == s.drop_first()[j - 1]);
            }
        }
        if value_end(s) < s.len() {
            assert(s[value_end(s)] == s.drop_first()[value_end(s) - 1]);
        }
    }
}

proof fn lemma_first_match_props(ls: Seq<Seq<char>>, prefix: Seq<char>)
    ensures
        0 <= first_match(ls, prefix) <= ls.len(),
        forall|k: int| 0 <= k < first_match(ls, prefix) ==> !line_matches(#[trigger] ls[k], prefix),
        first_match(ls, prefix) < ls.len() ==> line_matches(ls[first_match(ls, prefix)], prefix),
    decreases ls.len(),
{
    if ls.len() > 0 && !line_matches(ls[0], prefix) {
        lemma_first_match_props(ls.drop_first(), prefix);
        assert forall|k: int| 0 <= k < first_match(ls, prefix) implies !line_matches(
            #[trigger] ls[k],
            prefix,
        ) by {
            if k > 0 {
                assert(ls[k] == ls.drop_first()[k - 1]);
            }
        }
        if first_match(ls, prefix) < ls.len() {
            assert(ls[first_match(ls, prefix)] == ls.drop_first()[first_match(ls, prefix) - 1]);
        }
    }
}

/// Lines that match a prefix exactly where other lines do have their first
/// match at the same place.
proof fn lemma_first_match_same(a: Seq<Seq<char>>, b: Seq<Seq<char>>, prefix: Seq<char>)
    requires
        a.len() == b.len(),
        forall|k: int| 0 <= k < a.len() ==> line_matches(#[trigger] a[k], prefix) == line_matches(
            b[k],
            prefix,
        ),
    ensures
        first_match(a, prefix) == first_match(b, prefix),
{
    lemma_first_match_props(a, prefix);
    let f = first_match(a, prefix);
    assert forall|k: int| 0 <= k < f implies !line_matches(#[trigger] b[k], prefix) by {
        assert(line_matches(a[k], prefix) == line_matches(b[k], prefix));
    }
    if f < a.len() {
        assert(line_matches(a[f], prefix) == line_matches(b[f], prefix));
    }
    lemma_first_match_at(b, prefix, f);
}

/// A patched define line still defines its parameter and no other, and
/// carries the new value.
proof fn lemma_patched_line(line: Seq<char>, i: int, value: Seq<char>)
    requires
        0 <= i < 26,
        line_matches(line, param_prefix(i)),
        forall|j: int| 0 <= j < value.len() ==> !is_value_stop(#[trigger] value[j]),
    ensures
        forall|k: int|
            0 <= k < 26 ==> (line_matches(#[trigger] patched_line(line, param_prefix(i), value), param_prefix(k)) <==> k == i),
        forall|k: int| 0 <= k < 26 ==> (line_matches(line, #[trigger] param_prefix(k)) <==> k == i),
        define_line_value(patched_line(line, param_prefix(i), value), param_prefix(i)) == value,
        patched_line(patched_line(line, param_prefix(i), value), param_prefix(i), value)
            == patched_line(line, param_prefix(i), value),
        patched_line(line, param_prefix(i), value).len() >= param_prefix(i).len(),
        !line.contains('\n') && !value.contains('\n') ==> !patched_line(
            line,
            param_prefix(i),
            value,
        ).contains('\n'),
{
    let p = param_prefix(i);
    lemma_param_prefix_shape(i);
    let t = trim_start(line);
    lemma_trim_start_shape(line);
    let w = line.take(line.len() - t.len());
    let after = t.skip(p.len() as int);
    let ve = value_end(after);
    lemma_value_end_props(after);
    let tail = after.skip(ve);
    let x = p + value + tail;
    let out = patched_line(line, p, value);
    assert(out =~= w + x);
    assert forall|j: int| 0 <= j < w.len() implies is_ws(#[trigger] w[j]) by {
        assert(w[j] == line[j]);
    }
    assert(x[0] == '#');
    lemma_trim_start_indented(w, x);
    assert(trim_start(out) == x);
    assert(x.take(p.len() as int) =~= p);
    assert forall|k: int| 0 <= k < 26 implies (line_matches(
        #[trigger] patched_line(line, param_prefix(i), value),
        param_prefix(k),
    ) <==> k == i) by {
        if line_matches(out, param_prefix(k)) {
            lemma_one_define_per_line(x, i, k);
        }
    }
    assert forall|k: int| 0 <= k < 26 implies (line_matches(line, #[trigger] param_prefix(k))
        <==> k == i) by {
        if line_matches(line, param_prefix(k)) {
            lemma_one_define_per_line(t, i, k);
        }
    }
    let after2 = x.skip(p.len() as int);
    assert(after2 =~= value + tail);
    assert forall|j: int| 0 <= j < value.len() implies !is_value_stop(#[trigger] after2[j]) by {
        assert(after2[j] == value[j]);
    }
    if value.len() < after2.len() {
        assert(after2[value.len() as int] == tail[0]);
        assert(tail[0] == after[ve]);
    }
    lemma_value_end_at(after2, value.len() as int);
    assert(after2.take(value.len() as int) =~= value);
    assert(after2.skip(value.len() as int) =~= tail);
    assert(out.take(out.len() - x.len()) =~= w);
    assert(patched_line(out, p, value) =~= out);
    if !line.contains('\n') && !value.contains('\n') && out.contains('\n') {
        let j = choose|j: int| 0 <= j < out.len() && out[j] == '\n';
        if j < w.len() {
            assert(out[j] == line[j]);
        } else if j < w.len() + p.len() {
            assert(out[j] == p[j - w.len()]);
        } else if j < w.len() + p.len() + value.len() {
            assert(out[j] == value[j - w.len() - p.len()]);
        } else {
            let m = j - w.len() - p.len() - value.len();
            assert(out[j] == tail[m]);
            assert(tail[m] == line[line.len() - t.len() + p.len() + ve + m]);
        }
    }
}

/// What applying the defines of the first `n` parameters does (see
/// [`lemma_patch_writes_every_define`]).
proof fn lemma_apply_defines_effect(ls: Seq<Seq<char>>, c: FirmwareConfig, n: nat)
    requires
        n <= 26,
    ensures
        apply_defines(ls, c, n).len() == ls.len(),
        forall|i: int|
            0 <= i < 26 ==> first_match(apply_defines(ls, c, n), #[trigger] param_prefix(i))
                == first_match(ls, param_prefix(i)),
        forall|i: int|
            0 <= i < n && #[trigger] first_match(ls, param_prefix(i)) < ls.len() ==> {
                let f = first_match(ls, param_prefix(i));
                &&& apply_defines(ls, c, n)[f] == patched_line(ls[f], param_prefix(i), define_value(c, i))
                &&& define_line_value(apply_defines(ls, c, n)[f], param_prefix(i)) == define_value(c, i)
            },
        forall|j: int|
            0 <= j < ls.len() && (forall|i: int| 0 <= i < n ==> j != #[trigger] first_match(ls, param_prefix(i)))
                ==> apply_defines(ls, c, n)[j] == ls[j],
    decreases n,
{
    if n > 0 {
        let k = n - 1;
        lemma_apply_defines_effect(ls, c, (n - 1) as nat);
        let prev = apply_defines(ls, c, (n - 1) as nat);
        let p = param_prefix(k);
        let v = define_value(c, k);
        let out = apply_defines(ls, c, n);
        assert(out == apply_define(prev, p, v));
        let f = first_match(prev, p);
        assert(f == first_match(ls, param_prefix(k)));
        lemma_first_match_props(prev, p);
        if f < prev.len() {
            lemma_define_value_plain(c, k);
            lemma_patched_line(prev[f], k, v);
            assert(out == prev.update(f, patched_line(prev[f], p, v)));
            assert forall|i: int| 0 <= i < 26 implies first_match(out, #[trigger] param_prefix(i))
                == first_match(ls, param_prefix(i)) by {
                assert forall|j: int| 0 <= j < prev.len() implies line_matches(
                    #[trigger] prev[j],
                    param_prefix(i),
                ) == line_matches(out[j], param_prefix(i)) by {
                    if j == f {
                        assert(line_matches(prev[f], param_prefix(i)) <==> i == k);
                        assert(line_matches(patched_line(prev[f], p, v), param_prefix(i)) <==> i == k);
                    }
                }
                lemma_first_match_same(prev, out, param_prefix(i));
            }
            assert forall|i: int| 0 <= i < k implies #[trigger] first_match(ls, param_prefix(i)) != f by {
                let g = first_match(ls, param_prefix(i));
                assert(first_match(prev, param_prefix(i)) == g);
                lemma_first_match_props(prev, param_prefix(i));
                if g == f {
                    lemma_one_define_per_line(trim_start(prev[f]), i, k);
                }
            }
            assert(prev[f] == ls[f]);
            assert forall|i: int|
                0 <= i < n && #[trigger] first_match(ls, param_prefix(i)) < ls.len() implies {
                let g = first_match(ls, param_prefix(i));
                &&& out[g] == patched_line(ls[g], param_prefix(i), define_value(c, i))
                &&& define_line_value(out[g], param_prefix(i)) == define_value(c, i)
            } by {
                let g = first_match(ls, param_prefix(i));
                lemma_first_match_props(ls, param_prefix(i));
                if i != k {
                    assert(g != f);
                    assert(out[g] == prev[g]);
                }
            }
            assert forall|j: int|
                0 <= j < ls.len() && (forall|i: int| 0 <= i < n ==> j != #[trigger] first_match(ls, param_prefix(i)))
                implies out[j] == ls[j] by {
                assert(j != first_match(ls, param_prefix(k)));
                assert(forall|i: int| 0 <= i < n - 1 ==> j != #[trigger] first_match(ls, param_prefix(i)));
            }
        } else {
            assert(out == prev);
            assert forall|j: int|
                0 <= j < ls.len() && (forall|i: int| 0 <= i < n ==> j != #[trigger] first_match(ls, param_prefix(i)))
                implies out[j] == ls[j] by {
                assert(forall|i: int| 0 <= i < n - 1 ==> j != #[trigger] first_match(ls, param_prefix(i)));
            }
        }
    }
}

/// Patching writes the value of every parameter into the first line that
/// defines it, and touches no other line: the patched text has as many
/// lines as the source, the first define line of each parameter stays where
/// it was and carries that parameter's value, and every line that is no
/// parameter's first define line is kept as it was.
pub proof fn lemma_patch_writes_every_define(source: Seq<char>, c: FirmwareConfig)
    ensures
        apply_defines(lines(source), c, 26).len() == lines(source).len(),
        forall|i: int|
            0 <= i < 26 ==> first_match(apply_defines(lines(source), c, 26), #[trigger] param_prefix(i))
                == first_match(lines(source), param_prefix(i)),
        forall|i: int|
            0 <= i < 26 && #[trigger] first_match(lines(source), param_prefix(i)) < lines(source).len()
                ==> {
                let f = first_match(lines(source), param_prefix(i));
                &&& apply_defines(lines(source), c, 26)[f] == patched_line(
                    lines(source)[f],
                    param_prefix(i),
                    define_value(c, i),
                )
                &&& define_line_value(apply_defines(lines(source), c, 26)[f], param_prefix(i))
                    == define_value(c, i)
            },
        forall|j: int|
            0 <= j < lines(source).len() && (forall|i: int|
                0 <= i < 26 ==> j != #[trigger] first_match(lines(source), param_prefix(i)))
                ==> apply_defines(lines(source), c, 26)[j] == lines(source)[j],
{
    lemma_apply_defines_effect(lines(source), c, 26);
}

/// No line of `ls` that a line feed ends (all of them when `ended`, all
/// but the last otherwise) ends with a carriage return.
pub open spec fn no_cr_before_newline(ls: Seq<Seq<char>>, ended: bool) -> bool {
    forall|k: int| 0 <= k < ls.len() && (ended || k < ls.len() - 1) ==> !ends_with_cr(#[trigger] ls[k])
}

/// Every patched line holds no line feed, and the last one is not empty
/// when the source does not end with a line feed.
proof fn lemma_patched_lines_plain(source: Seq<char>, c: FirmwareConfig)
    ensures
        forall|k: int|
            0 <= k < apply_defines(lines(source), c, 26).len() ==> !(#[trigger] apply_defines(
                lines(source),
                c,
                26,
            )[k]).contains('\n'),
        ends_with_newline(source) ==> apply_defines(lines(source), c, 26).len() >= 1,
        !ends_with_newline(source) && apply_defines(lines(source), c, 26).len() >= 1
            ==> apply_defines(lines(source), c, 26).last().len() > 0,
{
    let ls = lines(source);
    let out = apply_defines(ls, c, 26);
    lemma_apply_defines_effect(ls, c, 26);
    lemma_lines_pieces(source);
    assert forall|k: int| 0 <= k < out.len() implies !(#[trigger] out[k]).contains('\n') && (
    k == out.len() - 1 && ls[k].len() > 0 ==> out[k].len() > 0) by {
        if exists|i: int| 0 <= i < 26 && k == #[trigger] first_match(ls, param_prefix(i)) {
            let i = choose|i: int| 0 <= i < 26 && k == #[trigger] first_match(ls, param_prefix(i));
            lemma_first_match_props(ls, param_prefix(i));
            lemma_define_value_plain(c, i);
            lemma_param_prefix_shape(i);
            let v = define_value(c, i);
            if v.contains('\n') {
                let j = choose|j: int| 0 <= j < v.len() && v[j] == '\n';
            }
            lemma_patched_line(ls[k], i, v);
            assert(out[k] == patched_line(ls[k], param_prefix(i), v));
        } else {
            assert(forall|i: int| 0 <= i < 26 ==> k != #[trigger] first_match(ls, param_prefix(i)));
            assert(out[k] == ls[k]);
        }
    }
    if !ends_with_newline(source) && out.len() >= 1 {
        assert(out[out.len() - 1] == out.last());
        assert(ls[ls.len() - 1] == ls.last());
    }
}

/// Reading the lines of the patched text gives back the patched lines,
/// unless a line that a line feed ends is left ending with a carriage
/// return (which reading would strip); and the patched text ends with a
/// line feed exactly when the source does.
pub proof fn lemma_patched_text_lines(source: Seq<char>, c: FirmwareConfig)
    requires
        no_cr_before_newline(apply_defines(lines(source), c, 26), ends_with_newline(source)),
    ensures
        lines(patch_config(source, c)) == apply_defines(lines(source), c, 26),
        ends_with_newline(patch_config(source, c)) == ends_with_newline(source),
{
    let out = apply_defines(lines(source), c, 26);
    lemma_patched_lines_plain(source, c);
    lemma_lines_of_line_text(out, ends_with_newline(source));
}

/// Patching twice with the same configuration gives what patching once
/// gives, unless a line that a line feed ends is left ending with a
/// carriage return.
pub proof fn lemma_patch_idempotent(source: Seq<char>, c: FirmwareConfig)
    requires
        no_cr_before_newline(apply_defines(lines(source), c, 26), ends_with_newline(source)),
    ensures
        patch_config(patch_config(source, c), c) == patch_config(source, c),
{
    let ls = lines(source);
    let out = apply_defines(ls, c, 26);
    lemma_patched_text_lines(source, c);
    lemma_apply_defines_effect(ls, c, 26);
    lemma_apply_defines_effect(out, c, 26);
    let out2 = apply_defines(out, c, 26);
    assert forall|k: int| 0 <= k < out.len() implies #[trigger] out2[k] == out[k] by {
        if exists|i: int| 0 <= i < 26 && k == #[trigger] first_match(out, param_prefix(i)) {
            let i = choose|i: int| 0 <= i < 26 && k == #[trigger] first_match(out, param_prefix(i));
            assert(first_match(out, param_prefix(i)) == first_match(ls, param_prefix(i)));
            lemma_first_match_props(ls, param_prefix(i));
            lemma_define_value_plain(c, i);
            lemma_patched_line(ls[k], i, define_value(c, i));
        }
    }
    assert(out2 =~= out);
}

/// A patched line holds a character only if the line, the prefix or the
/// value does.
proof fn lemma_patched_line_without(line: Seq<char>, i: int, value: Seq<char>, d: char)
    requires
        0 <= i < 26,
        line_matches(line, param_prefix(i)),
        !line.contains(d),
        !value.contains(d),
        !param_prefix(i).contains(d),
    ensures
        !patched_line(line, param_prefix(i), value).contains(d),
{
    let p = param_prefix(i);
    lemma_param_prefix_shape(i);
    let t = trim_start(line);
    lemma_trim_start_shape(line);
    let w = line.take(line.len() - t.len());
    let after = t.skip(p.len() as int);
    let ve = value_end(after);
    lemma_value_end_props(after);
    let tail = after.skip(ve);
    let out = patched_line(line, p, value);
    assert(out =~= w + p + value + tail);
    if out.contains(d) {
        let j = choose|j: int| 0 <= j < out.len() && out[j] == d;
        if j < w.len() {
            assert(out[j] == line[j]);
        } else if j < w.len() + p.len() {
            assert(out[j] == p[j - w.len()]);
        } else if j < w.len() + p.len() + value.len() {
            assert(out[j] == value[j - w.len() - p.len()]);
        } else {
            let m = j - w.len() - p.len() - value.len();
            assert(out[j] == tail[m]);
            assert(tail[m] == line[line.len() - t.len() + p.len() + ve + m]);
        }
    }
}

/// The patched lines of a source without carriage returns hold none.
proof fn lemma_patched_lines_without_cr(source: Seq<char>, c: FirmwareConfig)
    requires
        !source.contains('\r'),
    ensures
        forall|k: int|
            0 <= k < apply_defines(lines(source), c, 26).len() ==> !(#[trigger] apply_defines(
                lines(source),
                c,
                26,
            )[k]).contains('\r'),
{
    let ls = lines(source);
    let out = apply_defines(ls, c, 26);
    lemma_apply_defines_effect(ls, c, 26);
    crate::text::lemma_lines_without(source, '\r');
    assert forall|k: int| 0 <= k < out.len() implies !(#[trigger] out[k]).contains('\r') by {
        if exists|i: int| 0 <= i < 26 && k == #[trigger] first_match(ls, param_prefix(i)) {
            let i = choose|i: int| 0 <= i < 26 && k == #[trigger] first_match(ls, param_prefix(i));
            lemma_first_match_props(ls, param_prefix(i));
            lemma_define_value_plain(c, i);
            lemma_param_prefix_shape(i);
            let v = define_value(c, i);
            if v.contains('\r') {
                let j = choose|j: int| 0 <= j < v.len() && v[j] == '\r';
            }
            lemma_patched_line_without(ls[k], i, v, '\r');
            assert(out[k] == patched_line(ls[k], param_prefix(i), v));
        } else {
            assert(forall|i: int| 0 <= i < 26 ==> k != #[trigger] first_match(ls, param_prefix(i)));
            assert(out[k] == ls[k]);
        }
    }
}

/// For a source without carriage returns, reading the lines of the patched
/// text gives back the patched lines, and patching twice with the same
/// configuration gives what patching once gives.
pub proof fn lemma_patch_idempotent_without_cr(source: Seq<char>, c: FirmwareConfig)
    requires
        !source.contains('\r'),
    ensures
        lines(patch_config(source, c)) == apply_defines(lines(source), c, 26),
        patch_config(patch_config(source, c), c) == patch_config(source, c),
{
    lemma_patched_lines_without_cr(source, c);
    let out = apply_defines(lines(source), c, 26);
    assert(no_cr_before_newline(out, ends_with_newline(source))) by {
        assert forall|k: int|
            0 <= k < out.len() && (ends_with_newline(source) || k < out.len() - 1) implies !ends_with_cr(
            #[trigger] out[k],
        ) by {
            if ends_with_cr(out[k]) {
                assert(out[k][out[k].len() - 1] == '\r');
            }
        }
    }
    lemma_patched_text_lines(source, c);
    lemma_patch_idempotent(source, c);
}

/// What `config.h` receives for each parameter of `c` (in the order of
/// [`lemma_config_h_names`]): the value text written on its define line,
/// taken from the configuration field of that name. Switches are written `TRUE` exactly
/// when they are on; the turn-off mode and the speed control method by
/// their symbolic names (`0` is coast, resp. open loop); the switching
/// frequency, dead time and emulated motor frequency in decimal with a `UL`
/// suffix; every other number in decimal. (With
/// [`lemma_patch_writes_every_define`], this is what reading back each
/// patched define line gives.)
pub proof fn lemma_config_h_values(c: FirmwareConfig)
    ensures
        define_value(c, 0) == dec_digits(c.motor_poles as nat),
        define_value(c, 1) == dec_digits(c.f_mosfet as nat) + "UL"@,
        define_value(c, 2) == dec_digits(c.dead_time as nat) + "UL"@,
        define_value(c, 3) == (if c.emulate_hall { "TRUE"@ } else { "FALSE"@ }),
        define_value(c, 4) == dec_digits(c.tim3_freq as nat) + "UL"@,
        define_value(c, 5) == dec_digits(c.commutation_ticks_stopped as nat),
        define_value(c, 6) == (if c.turn_off_mode == 0 { "TURN_OFF_MODE_COAST"@ } else { "TURN_OFF_MODE_RAMP"@ }),
        define_value(c, 7) == dec_digits(c.iphase_gain as nat),
        define_value(c, 8) == dec_digits(c.iphase_sense_resistor as nat),
        define_value(c, 9) == dec_digits(c.ibus_gain as nat),
        define_value(c, 10) == dec_digits(c.ibus_sense_resistor as nat),
        define_value(c, 11) == dec_digits(c.ibus_warning_threshold as nat),
        define_value(c, 12) == dec_digits(c.ibus_error_threshold as nat),
        define_value(c, 13) == (if c.ibus_fault_enable { "TRUE"@ } else { "FALSE"@ }),
        define_value(c, 14) == (if c.speed_control_method == 0 { "SPEED_CONTROL_OPEN_LOOP"@ } else { "SPEED_CONTROL_CLOSED_LOOP"@ }),
        define_value(c, 15) == dec_digits(c.speed_controller_time_base as nat),
        define_value(c, 16) == dec_digits(c.speed_controller_max_delta as nat),
        define_value(c, 17) == dec_digits(c.speed_controller_max_speed as nat),
        define_value(c, 18) == signed_dec(c.pid_k_p as int),
        define_value(c, 19) == signed_dec(c.pid_k_i as int),
        define_value(c, 20) == (if c.pid_k_d_enable { "TRUE"@ } else { "FALSE"@ }),
        define_value(c, 21) == signed_dec(c.pid_k_d as int),
        define_value(c, 22) == dec_digits(c.vbus_rtop as nat),
        define_value(c, 23) == dec_digits(c.vbus_rbottom as nat),
        define_value(c, 24) == (if c.wait_for_board { "TRUE"@ } else { "FALSE"@ }),
        define_value(c, 25) == (if c.remote_debug_mode { "TRUE"@ } else { "FALSE"@ }),
{
}

/// The define line of each parameter begins `#define NAME `, with the
/// setting's name in `config.h`, in the order of the IDN serial fields.
pub proof fn lemma_config_h_names()
    ensures
        param_prefix(0) == "#define MOTOR_POLES "@,
        param_prefix(1) == "#define F_MOSFET "@,
        param_prefix(2) == "#define DEAD_TIME "@,
        param_prefix(3) == "#define EMULATE_HALL "@,
        param_prefix(4) == "#define TIM3_FREQ "@,
        param_prefix(5) == "#define COMMUTATION_TICKS_STOPPED "@,
        param_prefix(6) == "#define TURN_OFF_MODE "@,
        param_prefix(7) == "#define IPHASE_GAIN "@,
        param_prefix(8) == "#define IPHASE_SENSE_RESISTOR "@,
        param_prefix(9) == "#define IBUS_GAIN "@,
        param_prefix(10) == "#define IBUS_SENSE_RESISTOR "@,
        param_prefix(11) == "#define IBUS_WARNING_THRESHOLD "@,
        param_prefix(12) == "#define IBUS_ERROR_THRESHOLD "@,
        param_prefix(13) == "#define IBUS_FAULT_ENABLE "@,
        param_prefix(14) == "#define SPEED_CONTROL_METHOD "@,
        param_prefix(15) == "#define SPEED_CONTROLLER_TIME_BASE "@,
        param_prefix(16) == "#define SPEED_CONTROLLER_MAX_DELTA "@,
        param_prefix(17) == "#define SPEED_CONTROLLER_MAX_SPEED "@,
        param_prefix(18) == "#define PID_K_P "@,
        param_prefix(19) == "#define PID_K_I "@,
        param_prefix(20) == "#define PID_K_D_ENABLE "@,
        param_prefix(21) == "#define PID_K_D "@,
        param_prefix(22) == "#define VBUS_RTOP "@,
        param_prefix(23) == "#define VBUS_RBOTTOM "@,
        param_prefix(24) == "#define WAIT_FOR_BOARD "@,
        param_prefix(25) == "#define REMOTE_DEBUG_MODE "@,
{
    reveal_strlit("#define ");
    reveal_strlit(" ");
    reveal_strlit("MOTOR_POLES");
    reveal_strlit("#define MOTOR_POLES ");
    assert(param_prefix(0) =~= "#define MOTOR_POLES "@);
    reveal_strlit("F_MOSFET");
    reveal_strlit("#define F_MOSFET ");
    assert(param_prefix(1) =~= "#define F_MOSFET "@);
    reveal_strlit("DEAD_TIME");
    reveal_strlit("#define DEAD_TIME ");
    assert(param_prefix(2) =~= "#define DEAD_TIME "@);
    reveal_strlit("EMULATE_HALL");
    reveal_strlit("#define EMULATE_HALL ");
    assert(param_prefix(3) =~= "#define EMULATE_HALL "@);
    reveal_strlit("TIM3_FREQ");
    reveal_strlit("#define TIM3_FREQ ");
    assert(param_prefix(4) =~= "#define TIM3_FREQ "@);
    reveal_strlit("COMMUTATION_TICKS_STOPPED");
    reveal_strlit("#define COMMUTATION_TICKS_STOPPED ");
    assert(param_prefix(5) =~= "#define COMMUTATION_TICKS_STOPPED "@);
    reveal_strlit("TURN_OFF_MODE");
    reveal_strlit("#define TURN_OFF_MODE ");
    assert(param_prefix(6) =~= "#define TURN_OFF_MODE "@);
    reveal_strlit("IPHASE_GAIN");
    reveal_strlit("#define IPHASE_GAIN ");
    assert(param_prefix(7) =~= "#define IPHASE_GAIN "@);
    reveal_strlit("IPHASE_SENSE_RESISTOR");
    reveal_strlit("#define IPHASE_SENSE_RESISTOR ");
    assert(param_prefix(8) =~= "#define IPHASE_SENSE_RESISTOR "@);
    reveal_strlit("IBUS_GAIN");
    reveal_strlit("#define IBUS_GAIN ");
    assert(param_prefix(9) =~= "#define IBUS_GAIN "@);
    reveal_strlit("IBUS_SENSE_RESISTOR");
    reveal_strlit("#define IBUS_SENSE_RESISTOR ");
    assert(param_prefix(10) =~= "#define IBUS_SENSE_RESISTOR "@);
    reveal_strlit("IBUS_WARNING_THRESHOLD");
    reveal_strlit("#define IBUS_WARNING_THRESHOLD ");
    assert(param_prefix(11) =~= "#define IBUS_WARNING_THRESHOLD "@);
    reveal_strlit("IBUS_ERROR_THRESHOLD");
    reveal_strlit("#define IBUS_ERROR_THRESHOLD ");
    assert(param_prefix(12) =~= "#define IBUS_ERROR_THRESHOLD "@);
    reveal_strlit("IBUS_FAULT_ENABLE");
    reveal_strlit("#define IBUS_FAULT_ENABLE ");
    assert(param_prefix(13) =~= "#define IBUS_FAULT_ENABLE "@);
    reveal_strlit("SPEED_CONTROL_METHOD");
    reveal_strlit("#define SPEED_CONTROL_METHOD ");
    assert(param_prefix(14) =~= "#define SPEED_CONTROL_METHOD "@);
    reveal_strlit("SPEED_CONTROLLER_TIME_BASE");
    reveal_strlit("#define SPEED_CONTROLLER_TIME_BASE ");
    assert(param_prefix(15) =~= "#define SPEED_CONTROLLER_TIME_BASE "@);
    reveal_strlit("SPEED_CONTROLLER_MAX_DELTA");
    reveal_strlit("#define SPEED_CONTROLLER_MAX_DELTA ");
    assert(param_prefix(16) =~= "#define SPEED_CONTROLLER_MAX_DELTA "@);
    reveal_strlit("SPEED_CONTROLLER_MAX_SPEED");
    reveal_strlit("#define SPEED_CONTROLLER_MAX_SPEED ");
    assert(param_prefix(17) =~= "#define SPEED_CONTROLLER_MAX_SPEED "@);
    reveal_strlit("PID_K_P");
    reveal_strlit("#define PID_K_P ");
    assert(param_prefix(18) =~= "#define PID_K_P "@);
    reveal_strlit("PID_K_I");
    reveal_strlit("#define PID_K_I ");
    assert(param_prefix(19) =~= "#define PID_K_I "@);
    reveal_strlit("PID_K_D_ENABLE");
    reveal_strlit("#define PID_K_D_ENABLE ");
    assert(param_prefix(20) =~= "#define PID_K_D_ENABLE "@);
    reveal_strlit("PID_K_D");
    reveal_strlit("#define PID_K_D ");
    assert(param_prefix(21) =~= "#define PID_K_D "@);
    reveal_strlit("VBUS_RTOP");
    reveal_strlit("#define VBUS_RTOP ");
    assert(param_prefix(22) =~= "#define VBUS_RTOP "@);
    reveal_strlit("VBUS_RBOTTOM");
    reveal_strlit("#define VBUS_RBOTTOM ");
    assert(param_prefix(23) =~= "#define VBUS_RBOTTOM "@);
    reveal_strlit("WAIT_FOR_BOARD");
    reveal_strlit("#define WAIT_FOR_BOARD ");
    assert(param_prefix(24) =~= "#define WAIT_FOR_BOARD "@);
    reveal_strlit("REMOTE_DEBUG_MODE");
    reveal_strlit("#define REMOTE_DEBUG_MODE ");
    assert(param_prefix(25) =~= "#define REMOTE_DEBUG_MODE "@);
}

} // verus!
