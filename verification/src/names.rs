//! The names of the files of a tileset.

use crate::octant::OctantIndex;
use vstd::prelude::*;
use vstd::string::*;

verus! {

/// The character of the decimal digit `digit`.
pub open spec fn digit_char(digit: nat) -> char {
    if digit == 0 {
        '0'
    } else if digit == 1 {
        '1'
    } else if digit == 2 {
        '2'
    } else if digit == 3 {
        '3'
    } else if digit == 4 {
        '4'
    } else if digit == 5 {
        '5'
    } else if digit == 6 {
        '6'
    } else if digit == 7 {
        '7'
    } else if digit == 8 {
        '8'
    } else {
        '9'
    }
}

/// The decimal digits of `n`, without leading zeros.
pub open spec fn decimal_digits(n: nat) -> Seq<char>
    decreases n,
{
    if n < 10 {
        seq![digit_char(n)]
    } else {
        decimal_digits(n / 10).push(digit_char(n % 10))
    }
}

/// The pattern of what every file name holds of its cell: level and
/// coordinates, the level set off by two underscores.
pub open spec fn label_pattern(
    level: Seq<char>,
    x: Seq<char>,
    y: Seq<char>,
    z: Seq<char>,
) -> Seq<char> {
    level + "__"@ + x + "_"@ + y + "_"@ + z
}

/// The pattern of the name of a subtree file.
pub open spec fn subtree_name_pattern(
    level: Seq<char>,
    x: Seq<char>,
    y: Seq<char>,
    z: Seq<char>,
) -> Seq<char> {
    label_pattern(level, x, y, z) + ".subtree"@
}

/// The pattern of the name of a content file.
pub open spec fn content_name_pattern(
    level: Seq<char>,
    x: Seq<char>,
    y: Seq<char>,
    z: Seq<char>,
) -> Seq<char> {
    "pc_"@ + label_pattern(level, x, y, z) + ".glb"@
}

/// What the name of every file of a cell holds: the pattern filled with
/// the decimal digits of level and coordinates.
pub open spec fn octant_label(index: OctantIndex) -> Seq<char> {
    label_pattern(
        decimal_digits(index.level as nat),
        decimal_digits(index.x as nat),
        decimal_digits(index.y as nat),
        decimal_digits(index.z as nat),
    )
}

/// The name of the subtree file rooted at `index`.
pub open spec fn subtree_filename(index: OctantIndex) -> Seq<char> {
    subtree_name_pattern(
        decimal_digits(index.level as nat),
        decimal_digits(index.x as nat),
        decimal_digits(index.y as nat),
        decimal_digits(index.z as nat),
    )
}

/// The name of the content file of `index`.
pub open spec fn content_filename(index: OctantIndex) -> Seq<char> {
    content_name_pattern(
        decimal_digits(index.level as nat),
        decimal_digits(index.x as nat),
        decimal_digits(index.y as nat),
        decimal_digits(index.z as nat),
    )
}

/// The path of the file with the relative name `name` in `directory`: the
/// two joined by a slash, unless the directory is empty or ends with one.
pub open spec fn path_in(directory: Seq<char>, name: Seq<char>) -> Seq<char> {
    if directory.len() == 0 || directory.last() == '/' {
        directory + name
    } else {
        directory + seq!['/'] + name
    }
}

/// The text of one decimal digit.
fn digit_text(digit: u64) -> (text: &'static str)
    requires
        digit < 10,
    ensures
        text@ == seq![digit_char(digit as nat)],
{
    proof {
        reveal_strlit("0");
        reveal_strlit("1");
        reveal_strlit("2");
        reveal_strlit("3");
        reveal_strlit("4");
        reveal_strlit("5");
        reveal_strlit("6");
        reveal_strlit("7");
        reveal_strlit("8");
        reveal_strlit("9");
    }
    let text = if digit == 0 {
        "0"
    } else if digit == 1 {
        "1"
    } else if digit == 2 {
        "2"
    } else if digit == 3 {
        "3"
    } else if digit == 4 {
        "4"
    } else if digit == 5 {
        "5"
    } else if digit == 6 {
        "6"
    } else if digit == 7 {
        "7"
    } else if digit == 8 {
        "8"
    } else {
        "9"
    };
    assert(text@ =~= seq![digit_char(digit as nat)]);
    text
}

/// The decimal digits of `n` as text.
fn decimal_string(n: u64) -> (text: String)
    ensures
        text@ == decimal_digits(n as nat),
    decreases n,
{
    if n < 10 {
        String::from_str(digit_text(n))
    } else {
        let mut text = decimal_string(n / 10);
        text.append(digit_text(n % 10));
        proof {
            assert(text@ =~= decimal_digits((n / 10) as nat).push(digit_char((n % 10) as nat)));
        }
        text
    }
}

/// Level and coordinates of `index` as they stand in file names.
fn derive_octant_label(index: &OctantIndex) -> (label: String)
    ensures
        label@ == octant_label(*index),
{
    let mut label = decimal_string(index.level as u64);
    label.append("__");
    label.append(decimal_string(index.x).as_str());
    label.append("_");
    label.append(decimal_string(index.y).as_str());
    label.append("_");
    label.append(decimal_string(index.z).as_str());
    label
}

/// The name of the subtree file rooted at `index`:
/// `{level}__{x}_{y}_{z}.subtree`.
pub fn derive_subtree_filename(index: &OctantIndex) -> (name: String)
    ensures
        name@ == subtree_filename(*index),
{
    let mut name = derive_octant_label(index);
    name.append(".subtree");
    name
}

/// The name of the content file of `index`: `pc_{level}__{x}_{y}_{z}.glb`.
pub fn derive_content_filename(index: &OctantIndex) -> (name: String)
    ensures
        name@ == content_filename(*index),
{
    let mut name = String::from_str("pc_");
    name.append(derive_octant_label(index).as_str());
    name.append(".glb");
    name
}

/// The path of the file `name` in `directory`.
pub fn join_path(directory: &str, name: &str) -> (path: String)
    ensures
        path@ == path_in(directory@, name@),
{
    let mut path = String::from_str(directory);
    let length = directory.unicode_len();
    if length > 0 && directory.get_char(length - 1) != '/' {
        proof {
            reveal_strlit("/");
            assert("/"@ == seq!['/']);
        }
        path.append("/");
    }
    path.append(name);
    path
}

/// Whether `c` is a decimal digit.
pub open spec fn is_digit(c: char) -> bool {
    '0' <= c <= '9'
}

/// The number a decimal digit stands for.
pub open spec fn digit_value(c: char) -> nat {
    (c as u32 - '0' as u32) as nat
}

/// Ten to the power `e`.
pub open spec fn ten_pow(e: nat) -> nat
    decreases e,
{
    if e == 0 {
        1
    } else {
        10 * ten_pow((e - 1) as nat)
    }
}

/// Reads the digits of `text` from position `at` on: the number they
/// continue from `value`, and the position behind them.
pub open spec fn parse_decimal(text: Seq<char>, at: int, value: nat) -> (nat, int)
    decreases text.len() - at,
{
    if 0 <= at < text.len() && is_digit(text[at]) {
        parse_decimal(text, at + 1, value * 10 + digit_value(text[at]))
    } else {
        (value, at)
    }
}

/// Reads level and coordinates of a cell from `text` at position `at`, as
/// they stand in file names.
pub open spec fn parse_cell(text: Seq<char>, at: int) -> OctantIndex {
    let level = parse_decimal(text, at, 0);
    let x = parse_decimal(text, level.1 + 2, 0);
    let y = parse_decimal(text, x.1 + 1, 0);
    let z = parse_decimal(text, y.1 + 1, 0);
    OctantIndex { level: level.0 as u32, x: x.0 as u64, y: y.0 as u64, z: z.0 as u64 }
}

/// The digits of a number are digits, and there is at least one.
pub proof fn lemma_decimal_digits(n: nat)
    ensures
        decimal_digits(n).len() >= 1,
        forall|i: int| 0 <= i < decimal_digits(n).len() ==> is_digit(#[trigger] decimal_digits(n)[i]),
    decreases n,
{
    if n >= 10 {
        lemma_decimal_digits(n / 10);
    }
}

/// Reading over the digits of `n` continues the number by `n`.
pub proof fn lemma_parse_decimal(text: Seq<char>, at: int, value: nat, n: nat)
    requires
        0 <= at,
        at + decimal_digits(n).len() <= text.len(),
        text.subrange(at, at + decimal_digits(n).len()) == decimal_digits(n),
    ensures
        parse_decimal(text, at, value) == parse_decimal(
            text,
            at + decimal_digits(n).len(),
            value * ten_pow(decimal_digits(n).len()) + n,
        ),
    decreases n,
{
    let digits = decimal_digits(n);
    let run = text.subrange(at, at + digits.len());
    if n < 10 {
        assert(text[at] == run[0]);
        assert(digit_value(digit_char(n)) == n);
        assert(is_digit(digit_char(n)));
        assert(ten_pow(1) == 10) by {
            reveal_with_fuel(ten_pow, 2);
        }
    } else {
        let head = decimal_digits(n / 10);
        lemma_decimal_digits(n / 10);
        assert(text.subrange(at, at + head.len()) =~= head) by {
            assert forall|i: int| 0 <= i < head.len() implies text.subrange(at, at + head.len())[i]
                == head[i] by {
                assert(text[at + i] == run[i]);
            }
        }
        lemma_parse_decimal(text, at, value, n / 10);
        let middle = value * ten_pow(head.len()) + n / 10;
        let last = at + head.len();
        assert(text[last] == run[head.len() as int]);
        assert(text[last] == digit_char(n % 10));
        assert(digit_value(digit_char(n % 10)) == n % 10);
        assert(is_digit(digit_char(n % 10)));
        assert(middle * 10 + n % 10 == value * ten_pow(digits.len()) + n) by (nonlinear_arith)
            requires
                middle == value * ten_pow(head.len()) + n / 10,
                ten_pow(digits.len()) == 10 * ten_pow(head.len()),
                n == 10 * (n / 10) + n % 10,
        ;
    }
}

/// A number stands in `text` at position `at`, followed by something that
/// is no digit: reading gives the number and the position behind it.
pub proof fn lemma_parse_number(text: Seq<char>, at: int, n: nat)
    requires
        0 <= at,
        at + decimal_digits(n).len() <= text.len(),
        text.subrange(at, at + decimal_digits(n).len()) == decimal_digits(n),
        at + decimal_digits(n).len() < text.len() ==> !is_digit(
            text[at + decimal_digits(n).len()],
        ),
    ensures
        parse_decimal(text, at, 0) == (n, at + decimal_digits(n).len()),
{
    lemma_parse_decimal(text, at, 0, n);
    assert(0 * ten_pow(decimal_digits(n).len()) + n == n) by (nonlinear_arith);
}

/// The label of a cell, wherever it stands in a text and whatever follows
/// it that is no digit, is read back as the cell.
pub proof fn lemma_parse_label(before: Seq<char>, index: OctantIndex, after: Seq<char>)
    requires
        after.len() > 0 ==> !is_digit(after[0]),
    ensures
        parse_cell(before + octant_label(index) + after, before.len() as int) == index,
{
    reveal_strlit("__");
    reveal_strlit("_");
    let level = decimal_digits(index.level as nat);
    let x = decimal_digits(index.x as nat);
    let y = decimal_digits(index.y as nat);
    let z = decimal_digits(index.z as nat);
    lemma_decimal_digits(index.level as nat);
    lemma_decimal_digits(index.x as nat);
    lemma_decimal_digits(index.y as nat);
    lemma_decimal_digits(index.z as nat);
    let text = before + octant_label(index) + after;
    let at_level = before.len() as int;
    let at_x = at_level + level.len() + 2;
    let at_y = at_x + x.len() + 1;
    let at_z = at_y + y.len() + 1;
    let end = at_z + z.len();
    assert(text.len() == end + after.len());
    assert(text.subrange(at_level, at_level + level.len()) =~= level);
    assert(text[at_level + level.len()] == '_');
    assert(text[at_level + level.len() + 1] == '_');
    assert(text.subrange(at_x, at_x + x.len()) =~= x);
    assert(text[at_x + x.len()] == '_');
    assert(text.subrange(at_y, at_y + y.len()) =~= y);
    assert(text[at_y + y.len()] == '_');
    assert(text.subrange(at_z, at_z + z.len()) =~= z);
    if after.len() > 0 {
        assert(text[end] == after[0]);
    }
    lemma_parse_number(text, at_level, index.level as nat);
    lemma_parse_number(text, at_x, index.x as nat);
    lemma_parse_number(text, at_y, index.y as nat);
    lemma_parse_number(text, at_z, index.z as nat);
}

/// The name of a subtree file tells its root, and the name of a content
/// file its cell; so the files of different cells have different names.
pub proof fn lemma_names_tell_cells(a: OctantIndex, b: OctantIndex)
    ensures
        parse_cell(subtree_filename(a), 0) == a,
        parse_cell(content_filename(a), 3) == a,
        a != b ==> subtree_filename(a) != subtree_filename(b),
        a != b ==> content_filename(a) != content_filename(b),
{
    reveal_strlit(".subtree");
    reveal_strlit(".glb");
    reveal_strlit("pc_");
    let none = Seq::<char>::empty();
    lemma_parse_label(none, a, ".subtree"@);
    lemma_parse_label(none, b, ".subtree"@);
    assert(none + octant_label(a) + ".subtree"@ =~= subtree_filename(a));
    assert(none + octant_label(b) + ".subtree"@ =~= subtree_filename(b));
    lemma_parse_label("pc_"@, a, ".glb"@);
    lemma_parse_label("pc_"@, b, ".glb"@);
}

} // verus!
