//! The glyph table and the compositor that flattens text into columns,
//! together with the binary-string codec used to author glyph patterns.
//!
//! Each supported character owns a 64-bit pattern, 8 packed columns with the
//! first column in the least-significant byte. Patterns are authored with
//! left padding (all-zero leading columns); the compositor strips it so
//! glyphs render at their natural width, and inserts one blank spacer column
//! between adjacent glyphs.

use vstd::prelude::*;

use crate::display::Column;
use crate::util::{col_of, cols_of, lemma_eq_by_cols, lemma_zero_cols};

verus! {

/// The authored 64-bit pattern of a character.
///
/// Characters outside the supported set map to a bordered-box pattern rather
/// than failing; the space character maps to the all-zero pattern. The lookup
/// is total.
pub open spec fn spec_glyph(c: char) -> u64 {
    match c {
        'A' => 9189745159477133312,
        'a' => 1086798065051893760,
        'B' => 7967309272029593600,
        'b' => 1013610157977894912,
        'C' => 9331882296053071872,
        'c' => 1229782938195853312,
        'D' => 9115709516103548928,
        'd' => 9156118282367926272,
        'E' => 9336403558750224384,
        'e' => 870625283139436544,
        'F' => 10416984890535837696,
        'f' => 4634273285796790272,
        'G' => 2202684085925576704,
        'g' => 4487068767339151360,
        'H' => 18379207744482705408,
        'h' => 1085385173232517120,
        'I' => 18374686479671623680,
        'i' => 16068843470457929728,
        'J' => 18339080998957875200,
        'j' => 6773696414053564416,
        'K' => 9314046669131612160,
        'k' => 651337513465544704,
        'L' => 72340177099423744,
        'l' => 72477607479738368,
        'M' => 18383711412829552640,
        'm' => 1085384071841841152,
        'N' => 18376956013388496896,
        'n' => 1085385171353468928,
        'O' => 9115709513939288064,
        'o' => 1013610156082069504,
        'P' => 6958220376715296768,
        'p' => 1739555094166241280,
        'Q' => 9043933394878070784,
        'q' => 4549801260991119360,
        'R' => 8039084287284215808,
        'r' => 1157442765391396864,
        'S' => 10273152278592487424,
        's' => 1302970847283118080,
        'T' => 9259542668734660608,
        't' => 74659072908984320,
        'U' => 18302911468678414336,
        'u' => 2162010400424460288,
        'V' => 16148785786395820032,
        'v' => 1731072232454619136,
        'W' => 18375280228818747392,
        'w' => 2162042286261665792,
        'X' => 14350737979939487744,
        'x' => 1227798289693278208,
        'Y' => 16145421229275217920,
        'y' => 4468983725207584768,
        'Z' => 13952593140407009280,
        'z' => 1232039144696315904,
        '0' => 4490450865206853632,
        '1' => 9160321642071588864,
        '2' => 3551445936313991168,
        '3' => 3911738330454163456,
        '4' => 9153575075096559616,
        '5' => 5064659835866316800,
        '6' => 452973816449073152,
        '7' => 8091916573708648448,
        '8' => 3911738330135396352,
        '9' => 4488199082338156544,
        '!' => 9007199254740992000,
        '?' => 3479106990762885120,
        '&' => 663798573871136768,
        '.' => 72057594037927936,
        ',' => 144396663052566528,
        '(' => 4701195061021376512,
        ')' => 4485866703837724672,
        ':' => 1297036692682702848,
        ';' => 1297318167659413504,
        '/' => 1155177711073755136,
        '+' => 289390378165993472,
        '-' => 289360691352043520,
        '=' => 1446803456760217600,
        '<' => 1227798246458392576,
        '>' => 291063817616490496,
        '_' => 72340172838010880,
        '#' => 729312793085345792,
        '%' => 1155740695386914816,
        '*' => 1227827976507228160,
        '$' => 2606035153054597120,
        '{' => 4342219379529302590,
        '}' => 434221499872950739,
        ' ' => 0,
        _ => 0b11111111_10000001_10000001_10000001_10000001_10000001_10000001_11111111,
    }
}

/// Look up the authored glyph pattern of a character.
///
/// Unsupported characters resolve to a bordered-box fallback pattern and the
/// space character to the all-zero pattern; no input is an error.
pub fn glyph_value(c: char) -> (r: u64)
    ensures
        r == spec_glyph(c),
{
    match c {
        'A' => 9189745159477133312,
        'a' => 1086798065051893760,
        'B' => 7967309272029593600,
        'b' => 1013610157977894912,
        'C' => 9331882296053071872,
        'c' => 1229782938195853312,
        'D' => 9115709516103548928,
        'd' => 9156118282367926272,
        'E' => 9336403558750224384,
        'e' => 870625283139436544,
        'F' => 10416984890535837696,
        'f' => 4634273285796790272,
        'G' => 2202684085925576704,
        'g' => 4487068767339151360,
        'H' => 18379207744482705408,
        'h' => 1085385173232517120,
        'I' => 18374686479671623680,
        'i' => 16068843470457929728,
        'J' => 18339080998957875200,
        'j' => 6773696414053564416,
        'K' => 9314046669131612160,
        'k' => 651337513465544704,
        'L' => 72340177099423744,
        'l' => 72477607479738368,
        'M' => 18383711412829552640,
        'm' => 1085384071841841152,
        'N' => 18376956013388496896,
        'n' => 1085385171353468928,
        'O' => 9115709513939288064,
        'o' => 1013610156082069504,
        'P' => 6958220376715296768,
        'p' => 1739555094166241280,
        'Q' => 9043933394878070784,
        'q' => 4549801260991119360,
        'R' => 8039084287284215808,
        'r' => 1157442765391396864,
        'S' => 10273152278592487424,
        's' => 1302970847283118080,
        'T' => 9259542668734660608,
        't' => 74659072908984320,
        'U' => 18302911468678414336,
        'u' => 2162010400424460288,
        'V' => 16148785786395820032,
        'v' => 1731072232454619136,
        'W' => 18375280228818747392,
        'w' => 2162042286261665792,
        'X' => 14350737979939487744,
        'x' => 1227798289693278208,
        'Y' => 16145421229275217920,
        'y' => 4468983725207584768,
        'Z' => 13952593140407009280,
        'z' => 1232039144696315904,
        '0' => 4490450865206853632,
        '1' => 9160321642071588864,
        '2' => 3551445936313991168,
        '3' => 3911738330454163456,
        '4' => 9153575075096559616,
        '5' => 5064659835866316800,
        '6' => 452973816449073152,
        '7' => 8091916573708648448,
        '8' => 3911738330135396352,
        '9' => 4488199082338156544,
        '!' => 9007199254740992000,
        '?' => 3479106990762885120,
        '&' => 663798573871136768,
        '.' => 72057594037927936,
        ',' => 144396663052566528,
        '(' => 4701195061021376512,
        ')' => 4485866703837724672,
        ':' => 1297036692682702848,
        ';' => 1297318167659413504,
        '/' => 1155177711073755136,
        '+' => 289390378165993472,
        '-' => 289360691352043520,
        '=' => 1446803456760217600,
        '<' => 1227798246458392576,
        '>' => 291063817616490496,
        '_' => 72340172838010880,
        '#' => 729312793085345792,
        '%' => 1155740695386914816,
        '*' => 1227827976507228160,
        '$' => 2606035153054597120,
        '{' => 4342219379529302590,
        '}' => 434221499872950739,
        ' ' => 0,
        _ => 0b11111111_10000001_10000001_10000001_10000001_10000001_10000001_11111111,
    }
}

/// The index of the first non-zero element, or the length if all are zero.
pub open spec fn first_set(s: Seq<u8>) -> int
    decreases s.len(),
{
    if s.len() == 0 {
        0
    } else if s[0] != 0 {
        0
    } else {
        1 + first_set(s.drop_first())
    }
}

/// What `first_set` finds: everything before it is zero, and it lands on a
/// non-zero element whenever one exists.
pub proof fn lemma_first_set(s: Seq<u8>)
    ensures
        0 <= first_set(s) <= s.len(),
        forall|j: int| 0 <= j < first_set(s) ==> s[j] == 0,
        first_set(s) < s.len() ==> s[first_set(s)] != 0,
        (exists|j: int| 0 <= j < s.len() && s[j] != 0) ==> first_set(s) < s.len(),
    decreases s.len(),
{
    if s.len() == 0 {
    } else if s[0] != 0 {
    } else {
        lemma_first_set(s.drop_first());
        let t = s.drop_first();
        assert(forall|j: int| 0 <= j < first_set(t) ==> s[j + 1] == t[j] && t[j] == 0);
        assert(forall|j: int| 0 <= j < first_set(s) ==> s[j] == 0) by {
            assert(forall|j: int| 1 <= j < first_set(s) ==> s[j] == t[j - 1] && (0 <= j - 1
                < first_set(t) ==> t[j - 1] == 0));
        }
        if exists|j: int| 0 <= j < s.len() && s[j] != 0 {
            let j = choose|j: int| 0 <= j < s.len() && s[j] != 0;
            assert(t[j - 1] == s[j]);
            assert(first_set(t) < t.len());
        }
    }
}

/// The columns a 64-bit pattern contributes: its columns with the leading
/// all-zero columns stripped, or one single zero column if the pattern is
/// entirely blank.
pub open spec fn spec_pattern_columns(v: u64) -> Seq<Column> {
    let cols = cols_of(v);
    if v == 0 {
        seq![0u8]
    } else {
        cols.skip(first_set(cols))
    }
}

/// The columns a character contributes: its glyph's pattern, trimmed.
pub open spec fn spec_char_columns(c: char) -> Seq<Column> {
    spec_pattern_columns(spec_glyph(c))
}

/// Every pattern contributes at least one and at most eight columns.
pub proof fn lemma_pattern_columns_len(v: u64)
    ensures
        1 <= spec_pattern_columns(v).len() <= 8,
{
    let cols = cols_of(v);
    lemma_first_set(cols);
    if v != 0 {
        assert(exists|j: int| 0 <= j < cols.len() && cols[j] != 0) by {
            if !(exists|j: int| 0 <= j < cols.len() && cols[j] != 0) {
                lemma_zero_cols();
                assert forall|k: int| 0 <= k < 8 implies col_of(v, k) == col_of(0u64, k) by {
                    assert(!(0 <= k < cols.len() && cols[k] != 0));
                    assert(cols[k] == col_of(v, k));
                }
                lemma_eq_by_cols(v, 0);
            }
        }
    }
}

/// Split a 64-bit pattern into its sequence of display columns: the leading
/// all-zero columns are trimmed so the pattern renders at its natural width,
/// and an entirely blank pattern still contributes exactly one zero column
/// of advance.
pub fn pattern_to_columns(pattern: u64) -> (r: Vec<Column>)
    ensures
        r@ =~= spec_pattern_columns(pattern),
        1 <= r@.len() <= 8,
        pattern == 0 ==> r@ =~= seq![0u8],
        pattern != 0 ==> r@[0] != 0,
{
    let pattern_columns = crate::util::to_columns(pattern);
    proof {
        lemma_first_set(cols_of(pattern));
        lemma_pattern_columns_len(pattern);
    }

    // Find the first column with any bit set.
    let mut index: usize = 0;
    while index < 8 && pattern_columns[index] == 0
        invariant
            index <= 8,
            pattern_columns@ =~= cols_of(pattern),
            forall|j: int| 0 <= j < index ==> pattern_columns@[j] == 0,
        decreases 8 - index,
    {
        index += 1;
    }

    if index == 8 {
        // All columns are empty: the pattern is zero. Return a single empty
        // column so the character still occupies one column of advance.
        proof {
            lemma_zero_cols();
            assert forall|k: int| 0 <= k < 8 implies col_of(pattern, k) == col_of(0u64, k) by {
                assert(pattern_columns@[k] == 0);
            }
            lemma_eq_by_cols(pattern, 0);
        }
        let mut r: Vec<Column> = Vec::new();
        r.push(0);
        r
    } else {
        proof {
            assert(pattern != 0) by {
                if pattern == 0 {
                    lemma_zero_cols();
                    assert(col_of(pattern, index as int) == 0);
                }
            }
            assert(first_set(cols_of(pattern)) == index);
        }
        let mut r: Vec<Column> = Vec::new();
        let mut j: usize = index;
        while j < 8
            invariant
                index <= j <= 8,
                pattern_columns@ =~= cols_of(pattern),
                r@ =~= cols_of(pattern).subrange(index as int, j as int),
            decreases 8 - j,
        {
            r.push(pattern_columns[j]);
            j += 1;
        }
        proof {
            assert(r@ =~= cols_of(pattern).skip(index as int));
        }
        r
    }
}

/// Convert a character into its sequence of display columns: its glyph's
/// pattern with the leading blank columns trimmed; a character whose glyph
/// is entirely blank (space) still contributes one zero column of advance.
pub fn char_to_columns(char_to_convert: char) -> (r: Vec<Column>)
    ensures
        r@ =~= spec_char_columns(char_to_convert),
        1 <= r@.len() <= 8,
        spec_glyph(char_to_convert) == 0 ==> r@ =~= seq![0u8],
        spec_glyph(char_to_convert) != 0 ==> r@[0] != 0,
{
    pattern_to_columns(glyph_value(char_to_convert))
}

/// The column stream of a string: each character's columns in order, with
/// exactly one zero spacer column between adjacent characters (none before
/// the first or after the last).
pub open spec fn spec_string_columns(s: Seq<char>) -> Seq<Column>
    decreases s.len(),
{
    if s.len() == 0 {
        Seq::empty()
    } else if s.len() == 1 {
        spec_char_columns(s[0])
    } else {
        spec_string_columns(s.drop_last()) + seq![0u8] + spec_char_columns(s.last())
    }
}

/// A non-empty string contributes at least one column.
pub proof fn lemma_string_columns_len(s: Seq<char>)
    ensures
        s.len() > 0 ==> spec_string_columns(s).len() > 0,
    decreases s.len(),
{
    if s.len() == 1 {
        lemma_pattern_columns_len(spec_glyph(s[0]));
    } else if s.len() > 1 {
        lemma_string_columns_len(s.drop_last());
        lemma_pattern_columns_len(spec_glyph(s.last()));
    }
}

/// Convert a string into the flattened column stream that scrolls across the
/// display.
pub fn string_to_columns(input: &str) -> (r: Vec<Column>)
    ensures
        r@ =~= spec_string_columns(input@),
        input@.len() > 0 ==> r@.len() > 0,
{
    let n = input.unicode_len();
    let mut r: Vec<Column> = Vec::new();
    let mut i: usize = 0;
    while i < n
        invariant
            i <= n,
            n == input@.len(),
            r@ =~= spec_string_columns(input@.subrange(0, i as int)),
        decreases n - i,
    {
        if i > 0 {
            r.push(0);
        }
        let cur_char = input.get_char(i);
        let mut char_columns = char_to_columns(cur_char);
        r.append(&mut char_columns);
        proof {
            let prefix = input@.subrange(0, i as int);
            let next = input@.subrange(0, i + 1 as int);
            assert(next.drop_last() =~= prefix);
            assert(next.last() == input@[i as int]);
            if i == 0 {
                assert(r@ =~= spec_string_columns(next));
            } else {
                assert(r@ =~= spec_string_columns(prefix) + seq![0u8] + spec_char_columns(
                    input@[i as int],
                ));
            }
        }
        i += 1;
    }
    proof {
        assert(input@.subrange(0, n as int) =~= input@);
        lemma_string_columns_len(input@);
    }
    r
}

/// One step of parsing a binary string: shift the accumulator and take the
/// digit in; any character other than '0' or '1' is ignored.
pub open spec fn bin_step(acc: u64, c: char) -> u64 {
    if c == '1' {
        (acc << 1u64) | 1u64
    } else if c == '0' {
        acc << 1u64
    } else {
        acc
    }
}

/// The 64-bit value a string of binary digits denotes, most-significant digit
/// first; characters other than '0' and '1' are ignored.
pub open spec fn bin_fold(s: Seq<char>) -> u64
    decreases s.len(),
{
    if s.len() == 0 {
        0
    } else {
        bin_step(bin_fold(s.drop_last()), s.last())
    }
}

/// Convert a series of bits represented in a string to a `u64`.
///
/// The 8x8 LED matrix has 64 LEDs, the same number of bits as a 64-bit
/// integer, so the on/off state of the whole display fits one `u64`. Any
/// character that is not '0' or '1' is stripped, and the remaining digits are
/// read as one binary number, most-significant digit first.
pub fn _create_matrix(lines: &str) -> (result: u64)
    ensures
        result == bin_fold(lines@),
{
    let n = lines.unicode_len();
    let mut result: u64 = 0;
    let mut i: usize = 0;
    while i < n
        invariant
            i <= n,
            n == lines@.len(),
            result == bin_fold(lines@.subrange(0, i as int)),
        decreases n - i,
    {
        let c = lines.get_char(i);
        match c {
            '1' => {
                result = result << 1;
                result = result | 1;
            },
            '0' => {
                result = result << 1;
            },
            _ => {},
        }
        proof {
            let prefix = lines@.subrange(0, i as int);
            let next = lines@.subrange(0, i + 1 as int);
            assert(next.drop_last() =~= prefix);
            assert(next.last() == lines@[i as int]);
        }
        i += 1;
    }
    proof {
        assert(lines@.subrange(0, n as int) =~= lines@);
    }
    result
}

/// The binary rendering of the low `n` bits of a value, most-significant
/// digit first.
pub open spec fn binstr(v: u64, n: nat) -> Seq<char>
    decreases n,
{
    if n == 0 {
        Seq::empty()
    } else {
        binstr(v >> 1u64, (n - 1) as nat).push(
            if v & 1 == 1 {
                '1'
            } else {
                '0'
            },
        )
    }
}

proof fn lemma_binstr_len(v: u64, n: nat)
    ensures
        binstr(v, n).len() == n,
    decreases n,
{
    if n > 0 {
        lemma_binstr_len(v >> 1u64, (n - 1) as nat);
    }
}

/// Render a display state as its 64-character binary string,
/// most-significant bit first, for round-tripping through the glyph
/// authoring tool's text field.
pub fn u64_to_binary_string(v: u64) -> (r: String)
    ensures
        r@ =~= binstr(v, 64),
        r@.len() == 64,
{
    let mut r = String::new();
    let mut i: usize = 0;
    while i < 64
        invariant
            i <= 64,
            r@ =~= binstr(v >> ((64 - i) as u64), i as nat),
        decreases 64 - i,
    {
        let rest = v >> ((63 - i) as u64);
        let ghost prev = r@;
        if rest & 1 == 1 {
            r.append("1");
        } else {
            r.append("0");
        }
        proof {
            reveal_strlit("1");
            reveal_strlit("0");
            let sh = (63 - i) as u64;
            if i > 0 {
                assert((v >> sh) >> 1u64 == v >> ((sh + 1) as u64)) by (bit_vector)
                    requires
                        sh < 63u64,
                ;
                assert((sh + 1) as u64 == (64 - i) as u64);
                assert((v >> sh) >> 1u64 == v >> ((64 - i) as u64));
            }
            let c = if (v >> sh) & 1 == 1 { '1' } else { '0' };
            assert(binstr(v >> sh, (i + 1) as nat) == binstr((v >> sh) >> 1u64, i as nat).push(c));
            assert(r@ =~= prev.push(c));
        }
        i += 1;
    }
    proof {
        assert(v >> 0u64 == v) by (bit_vector);
        lemma_binstr_len(v, 64);
    }
    r
}

proof fn lemma_bin_round_trip_rec(v: u64, n: u64)
    requires
        n <= 64,
        n < 64 ==> v >> n == 0,
    ensures
        bin_fold(binstr(v, n as nat)) == v,
    decreases n,
{
    if n == 0 {
        assert(v == 0) by (bit_vector)
            requires
                v >> 0u64 == 0,
        ;
    } else {
        let h = v >> 1u64;
        let s = binstr(v, n as nat);
        assert(s.drop_last() =~= binstr(h, (n - 1) as nat));
        if n < 64 {
            assert(h >> ((n - 1) as u64) == 0) by (bit_vector)
                requires
                    v >> n == 0 && 0 < n < 64u64 && h == v >> 1u64,
            ;
        } else {
            assert(h >> 63u64 == 0) by (bit_vector)
                requires
                    h == v >> 1u64,
            ;
        }
        lemma_bin_round_trip_rec(h, (n - 1) as u64);
        if v & 1 == 1 {
            assert((h << 1u64) | 1u64 == v) by (bit_vector)
                requires
                    h == v >> 1u64 && v & 1 == 1,
            ;
        } else {
            assert(v & 1 == 0) by (bit_vector)
                requires
                    !(v & 1 == 1),
            ;
            assert(h << 1u64 == v) by (bit_vector)
                requires
                    h == v >> 1u64 && v & 1 == 0,
            ;
        }
    }
}

/// The binary rendering reads most-significant bit first: its `i`-th
/// character is '1' exactly when bit `n - 1 - i` of the value is set.
pub proof fn lemma_binstr_index(v: u64, n: u64, i: u64)
    requires
        n <= 64,
        i < n,
    ensures
        binstr(v, n as nat).len() == n,
        binstr(v, n as nat)[i as int] == (if (v >> ((n - 1 - i) as u64)) & 1 == 1 {
            '1'
        } else {
            '0'
        }),
    decreases n,
{
    lemma_binstr_len(v, n as nat);
    lemma_binstr_len(v >> 1u64, (n - 1) as nat);
    if i == n - 1 {
        assert((v >> 0u64) & 1 == v & 1) by (bit_vector);
    } else {
        lemma_binstr_index(v >> 1u64, (n - 1) as u64, i);
        let k = (n - 2 - i) as u64;
        assert(((v >> 1u64) >> k) & 1 == (v >> ((k + 1) as u64)) & 1) by (bit_vector)
            requires
                k <= 62u64,
        ;
    }
}

/// Round trip of the glyph authoring codec: parsing the binary rendering of
/// any 64-bit display state yields the state back.
pub proof fn lemma_binary_round_trip(v: u64)
    ensures
        bin_fold(binstr(v, 64)) == v,
{
    lemma_bin_round_trip_rec(v, 64);
}

/// A pattern line expanded to the 8 characters of one display row: the
/// pattern repeats until the row is full.
pub open spec fn pattern_row(s: Seq<char>) -> Seq<char>
    recommends
        s.len() > 0,
{
    Seq::new(8, |j: int| s[j % (s.len() as int)])
}

/// The first `n` pattern lines expanded and joined in order.
pub open spec fn rows_joined(lines: [&str; 8], n: int) -> Seq<char>
    decreases n,
{
    if n <= 0 {
        Seq::empty()
    } else {
        rows_joined(lines, n - 1) + pattern_row(lines@[n - 1]@)
    }
}

/// Create a 64-bit LED matrix value from a pattern of lines.
///
/// For each line, the pattern is repeated until 8 characters have been
/// produced, and the 8 expanded rows are read as one binary number.
/// Pattern lines must not be empty.
pub fn _create_matrix_from_pattern(lines: [&str; 8]) -> (r: u64)
    requires
        forall|i: int| 0 <= i < 8 ==> #[trigger] lines@[i]@.len() > 0,
    ensures
        r == bin_fold(rows_joined(lines, 8)),
{
    let mut joined = String::new();
    let mut i: usize = 0;
    while i < 8
        invariant
            i <= 8,
            forall|k: int| 0 <= k < 8 ==> #[trigger] lines@[k]@.len() > 0,
            joined@ =~= rows_joined(lines, i as int),
        decreases 8 - i,
    {
        let line = lines[i];
        let line_len = line.unicode_len();
        let mut j: usize = 0;
        while j < 8
            invariant
                j <= 8,
                i < 8,
                line == lines@[i as int],
                line_len == line@.len(),
                line_len > 0,
                joined@ =~= rows_joined(lines, i as int) + pattern_row(line@).subrange(
                    0,
                    j as int,
                ),
            decreases 8 - j,
        {
            let k = j % line_len;
            let piece = line.substring_char(k, k + 1);
            joined.append(piece);
            proof {
                assert(piece@ =~= seq![line@[(j as int) % (line@.len() as int)]]);
                assert(pattern_row(line@).subrange(0, j + 1 as int) =~= pattern_row(
                    line@,
                ).subrange(0, j as int) + piece@);
            }
            j += 1;
        }
        proof {
            assert(pattern_row(line@).subrange(0, 8) =~= pattern_row(line@));
        }
        i += 1;
    }
    _create_matrix(joined.as_str())
}

} // verus!
