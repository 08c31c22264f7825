//! The persisted graph format: a structured text payload under a
//! version header. Numbers are fixed-width uppercase hex; strings are
//! length-prefixed and otherwise raw, so no escaping is ever needed;
//! lists are count-prefixed. `spec_ser_graph` is the exact statement
//! of the format, the writer produces it, and the reader inverts it:
//! parsing a serialized well-formed graph gives that graph back.

use vstd::prelude::*;

use crate::model::{
    BlueprintGraph, BuiltinNodeKind, DataType, GraphDef, GraphId, GraphKind, Link, Node,
    NodeId, NodePosition, Pin, PinDirection, PinId, PinT, Value, VariableDef, pin_t,
};
use crate::views::{GraphT, NodeT, ValueT, VarT, graph_t, node_t, props_t, value_t, var_t};

verus! {

// ---------------------------------------------------------------------
// Fixed-width hex numbers
// ---------------------------------------------------------------------

/// Sixteen to the `k`.
pub open spec fn pow16(k: nat) -> int
    decreases k,
{
    if k == 0 {
        1
    } else {
        16 * pow16((k - 1) as nat)
    }
}

/// The digit character of a value below sixteen.
pub open spec fn hex_digit(d: int) -> char {
    if d == 0 { '0' } else if d == 1 { '1' } else if d == 2 { '2' } else if d == 3 { '3' }
    else if d == 4 { '4' } else if d == 5 { '5' } else if d == 6 { '6' } else if d == 7 { '7' }
    else if d == 8 { '8' } else if d == 9 { '9' } else if d == 10 { 'A' } else if d == 11 { 'B' }
    else if d == 12 { 'C' } else if d == 13 { 'D' } else if d == 14 { 'E' } else { 'F' }
}

/// The value of a digit character; sixteen for any other character.
pub open spec fn hex_unval(c: char) -> int {
    if c == '0' { 0 } else if c == '1' { 1 } else if c == '2' { 2 } else if c == '3' { 3 }
    else if c == '4' { 4 } else if c == '5' { 5 } else if c == '6' { 6 } else if c == '7' { 7 }
    else if c == '8' { 8 } else if c == '9' { 9 } else if c == 'A' { 10 } else if c == 'B' { 11 }
    else if c == 'C' { 12 } else if c == 'D' { 13 } else if c == 'E' { 14 } else if c == 'F' { 15 }
    else { 16 }
}

/// `n` written as `k` hex digits, most significant first.
pub open spec fn spec_hex(n: int, k: nat) -> Seq<char>
    decreases k,
{
    if k == 0 {
        Seq::empty()
    } else {
        spec_hex(n / 16, (k - 1) as nat).push(hex_digit(n % 16))
    }
}

/// The number read back from digits, most significant first.
pub open spec fn hex_fold(s: Seq<char>) -> int
    decreases s.len(),
{
    if s.len() == 0 {
        0
    } else {
        hex_fold(s.drop_last()) * 16 + hex_unval(s.last())
    }
}

/// Reading the digits of `n` gives `n` back, every digit reads below
/// sixteen, and the width is exact.
pub proof fn lemma_hex_roundtrip(n: int, k: nat)
    requires
        0 <= n < pow16(k),
    ensures
        spec_hex(n, k).len() == k,
        hex_fold(spec_hex(n, k)) == n,
        forall|i: int| 0 <= i < k ==> hex_unval(#[trigger] spec_hex(n, k)[i]) < 16,
    decreases k,
{
    if k > 0 {
        assert(n / 16 < pow16((k - 1) as nat)) by (nonlinear_arith)
            requires
                0 <= n,
                n < 16 * pow16((k - 1) as nat),
        ;
        assert(0 <= n / 16);
        lemma_hex_roundtrip(n / 16, (k - 1) as nat);
        let s = spec_hex(n, k);
        assert(s.drop_last() =~= spec_hex(n / 16, (k - 1) as nat));
        assert(0 <= n % 16 < 16);
        assert(hex_unval(hex_digit(n % 16)) == n % 16);
        assert(hex_fold(s) == (n / 16) * 16 + n % 16);
        assert((n / 16) * 16 + n % 16 == n) by (nonlinear_arith)
            requires
                0 <= n,
        ;
        assert forall|i: int| 0 <= i < k implies hex_unval(#[trigger] s[i]) < 16 by {
            if i < k - 1 {
                assert(s[i] == spec_hex(n / 16, (k - 1) as nat)[i]);
            } else {
                assert(s[i] == hex_digit(n % 16));
            }
        }
    }
}

/// The digit character of a value below sixteen (executable form).
fn hex_str(d: u64) -> (r: &'static str)
    requires
        d < 16,
    ensures
        r@ =~= seq![hex_digit(d as int)],
{
    let r = if d == 0 { "0" } else if d == 1 { "1" } else if d == 2 { "2" }
    else if d == 3 { "3" } else if d == 4 { "4" } else if d == 5 { "5" }
    else if d == 6 { "6" } else if d == 7 { "7" } else if d == 8 { "8" }
    else if d == 9 { "9" } else if d == 10 { "A" } else if d == 11 { "B" }
    else if d == 12 { "C" } else if d == 13 { "D" } else if d == 14 { "E" } else { "F" };
    proof {
        reveal_strlit("0"); reveal_strlit("1"); reveal_strlit("2"); reveal_strlit("3");
        reveal_strlit("4"); reveal_strlit("5"); reveal_strlit("6"); reveal_strlit("7");
        reveal_strlit("8"); reveal_strlit("9"); reveal_strlit("A"); reveal_strlit("B");
        reveal_strlit("C"); reveal_strlit("D"); reveal_strlit("E"); reveal_strlit("F");
    }
    r
}

/// Appends `n` as `k` hex digits, most significant first.
fn write_hex(out: &mut String, n: u64, k: u32)
    ensures
        final(out)@ == old(out)@ + spec_hex(n as int, k as nat),
    decreases k,
{
    if k == 0 {
        proof {
            assert(old(out)@ + spec_hex(n as int, 0) =~= old(out)@);
        }
    } else {
        write_hex(out, n / 16, k - 1);
        let digit = hex_str(n % 16);
        out.append(digit);
        proof {
            assert(old(out)@ + spec_hex((n / 16) as int, (k - 1) as nat) + seq![
                hex_digit((n % 16) as int),
            ] =~= old(out)@ + spec_hex(n as int, k as nat));
        }
    }
}

/// The value of a digit character (executable form).
fn hex_val(c: char) -> (r: Option<u64>)
    ensures
        match r {
            Some(d) => d < 16 && hex_unval(c) == d as int,
            None => hex_unval(c) == 16,
        },
{
    if c == '0' { Some(0) } else if c == '1' { Some(1) } else if c == '2' { Some(2) }
    else if c == '3' { Some(3) } else if c == '4' { Some(4) } else if c == '5' { Some(5) }
    else if c == '6' { Some(6) } else if c == '7' { Some(7) } else if c == '8' { Some(8) }
    else if c == '9' { Some(9) } else if c == 'A' { Some(10) } else if c == 'B' { Some(11) }
    else if c == 'C' { Some(12) } else if c == 'D' { Some(13) } else if c == 'E' { Some(14) }
    else if c == 'F' { Some(15) } else { None }
}

/// Reads `k` hex digits at `pos`. Whenever the input there is the
/// `k`-digit spelling of a number, that number comes back.
fn parse_hex(s: &str, total: usize, pos: usize, k: usize) -> (r: Option<(u64, usize)>)
    requires
        total == s@.len(),
        pos <= total,
        k <= 16,
    ensures
        match r {
            Some((v, p2)) => p2 == pos + k && p2 <= total,
            None => true,
        },
        forall|n: int|
            0 <= n < pow16(k as nat) && pos + k <= total && s@.subrange(
                pos as int,
                pos + k,
            ) =~= #[trigger] spec_hex(n, k as nat) ==> (r matches Some(rv) && rv.0 as int == n
                && rv.1 == pos + k),
{
    if k > total - pos {
        return None;
    }
    let mut acc: u64 = 0;
    let mut i: usize = 0;
    while i < k
        invariant
            total == s@.len(),
            pos + k <= total,
            k <= 16,
            i <= k,
            acc as int == hex_fold(s@.subrange(pos as int, pos + i)),
            (acc as int) < pow16(i as nat),
            forall|j: int| 0 <= j < i ==> hex_unval(#[trigger] s@[pos + j]) < 16,
        decreases k - i,
    {
        let c = s.get_char(pos + i);
        let d = match hex_val(c) {
            Some(d) => d,
            None => {
                proof {
                    assert forall|n: int|
                        !(0 <= n < pow16(k as nat) && pos + k <= total && s@.subrange(
                            pos as int,
                            pos + k,
                        ) =~= #[trigger] spec_hex(n, k as nat)) by {
                        if 0 <= n < pow16(k as nat) && s@.subrange(pos as int, pos + k)
                            =~= spec_hex(n, k as nat) {
                            lemma_hex_roundtrip(n, k as nat);
                            assert(s@[pos + i] == spec_hex(n, k as nat)[i as int]);
                        }
                    }
                }
                return None;
            },
        };
        proof {
            assert(pow16(i as nat) * 16 == pow16((i + 1) as nat)) by {
                lemma_pow16_step(i as nat);
            }
            assert(acc as int * 16 + d < pow16((i + 1) as nat)) by (nonlinear_arith)
                requires
                    (acc as int) < pow16(i as nat),
                    d < 16,
                    0 <= acc as int,
                    0 <= d,
                    pow16(i as nat) * 16 == pow16((i + 1) as nat),
            ;
            lemma_pow16_bound((i + 1) as nat);
            assert(s@.subrange(pos as int, pos + (i + 1)).drop_last() =~= s@.subrange(
                pos as int,
                pos + i,
            ));
            assert(s@.subrange(pos as int, pos + (i + 1)).last() == s@[pos + i]);
        }
        acc = acc * 16 + d;
        i += 1;
    }
    proof {
        assert forall|n: int|
            0 <= n < pow16(k as nat) && pos + k <= total && s@.subrange(pos as int, pos + k)
                =~= #[trigger] spec_hex(n, k as nat) implies acc as int == n by {
            lemma_hex_roundtrip(n, k as nat);
        }
    }
    Some((acc, pos + k))
}

/// One step of the power table.
proof fn lemma_pow16_step(k: nat)
    ensures
        pow16(k) * 16 == pow16((k + 1) as nat),
{
    assert(pow16((k + 1) as nat) == 16 * pow16(k));
}

/// Sixteen digits fit an unsigned doubleword.
proof fn lemma_pow16_bound(k: nat)
    requires
        k <= 16,
    ensures
        pow16(k) <= 0x1_0000_0000_0000_0000,
{
    lemma_pow16_mono(k, 16);
    lemma_pow16_exact();
}

/// Powers grow with the exponent.
proof fn lemma_pow16_mono(a: nat, b: nat)
    requires
        a <= b,
    ensures
        pow16(a) <= pow16(b),
        pow16(a) >= 1,
    decreases b,
{
    if a < b {
        lemma_pow16_mono(a, (b - 1) as nat);
        assert(pow16(b) == 16 * pow16((b - 1) as nat));
    } else if b > 0 {
        lemma_pow16_mono((a - 1) as nat, (b - 1) as nat);
        assert(pow16(a) == 16 * pow16((a - 1) as nat));
    }
}

/// The sixteenth power, exactly.
proof fn lemma_pow16_exact()
    ensures
        pow16(16) == 0x1_0000_0000_0000_0000,
{
    reveal_with_fuel(pow16, 17);
    assert(pow16(16) == 0x1_0000_0000_0000_0000);
}

/// The eighth power, exactly.
proof fn lemma_pow16_8()
    ensures
        pow16(8) == 0x1_0000_0000,
{
    reveal_with_fuel(pow16, 9);
    assert(pow16(8) == 0x1_0000_0000);
}

// ---------------------------------------------------------------------
// Tokens: strings and tag characters
// ---------------------------------------------------------------------

/// A string token: sixteen hex digits of length, then the characters.
pub open spec fn spec_ser_str(t: Seq<char>) -> Seq<char> {
    spec_hex(t.len() as int, 16) + t
}

/// Splitting a known concatenation at its seam.
proof fn lemma_split2(s: Seq<char>, p: int, x: Seq<char>, y: Seq<char>)
    requires
        0 <= p,
        p + x.len() + y.len() <= s.len(),
        s.subrange(p, p + x.len() + y.len()) =~= x + y,
    ensures
        s.subrange(p, p + x.len()) =~= x,
        s.subrange(p + x.len(), p + x.len() + y.len()) =~= y,
{
    let whole = s.subrange(p, p + x.len() + y.len());
    assert forall|i: int| 0 <= i < x.len() implies s.subrange(p, p + x.len())[i] == x[i] by {
        assert(whole[i] == (x + y)[i]);
    }
    assert forall|i: int| 0 <= i < y.len() implies s.subrange(
        p + x.len(),
        p + x.len() + y.len(),
    )[i] == y[i] by {
        assert(whole[x.len() + i] == (x + y)[x.len() + i]);
    }
}

/// Appends a string token.
fn write_str(out: &mut String, s: &str)
    ensures
        final(out)@ == old(out)@ + spec_ser_str(s@),
        str_ok(s@),
{
    let len = s.unicode_len();
    proof {
        lemma_pow16_exact();
    }
    write_hex(out, len as u64, 16);
    out.append(s);
    proof {
        assert(final(out)@ =~= old(out)@ + spec_ser_str(s@));
    }
}

/// Reads a string token at `pos`. Whenever the input there is the
/// token of some character sequence, that sequence comes back.
fn parse_str(s: &str, total: usize, pos: usize) -> (r: Option<(String, usize)>)
    requires
        total == s@.len(),
        pos <= total,
    ensures
        (r matches Some(rv) ==> pos <= rv.1 <= total),
        forall|t: Seq<char>|
            pos + 16 + t.len() <= total && s@.subrange(
                pos as int,
                pos + 16 + t.len(),
            ) =~= #[trigger] spec_ser_str(t) ==> (r matches Some(rv) && rv.0@ == t && rv.1 == pos
                + 16 + t.len()),
{
    let (len, p1) = match parse_hex(s, total, pos, 16) {
        Some(v) => v,
        None => {
            proof {
                assert forall|t: Seq<char>|
                    !(pos + 16 + t.len() <= total && s@.subrange(pos as int, pos + 16 + t.len())
                        =~= #[trigger] spec_ser_str(t)) by {
                    if pos + 16 + t.len() <= total && s@.subrange(pos as int, pos + 16 + t.len())
                        =~= spec_ser_str(t) {
                        lemma_pow16_exact();
                        lemma_hex_roundtrip(t.len() as int, 16);
                        lemma_split2(s@, pos as int, spec_hex(t.len() as int, 16), t);
                    }
                }
            }
            return None;
        },
    };
    if len > (total - p1) as u64 {
        proof {
            assert forall|t: Seq<char>|
                !(pos + 16 + t.len() <= total && s@.subrange(pos as int, pos + 16 + t.len())
                    =~= #[trigger] spec_ser_str(t)) by {
                if pos + 16 + t.len() <= total && s@.subrange(pos as int, pos + 16 + t.len())
                    =~= spec_ser_str(t) {
                    lemma_pow16_exact();
                    lemma_hex_roundtrip(t.len() as int, 16);
                    lemma_split2(s@, pos as int, spec_hex(t.len() as int, 16), t);
                }
            }
        }
        return None;
    }
    let lenu = len as usize;
    let content = s.substring_char(p1, p1 + lenu).to_owned();
    proof {
        assert forall|t: Seq<char>|
            pos + 16 + t.len() <= total && s@.subrange(pos as int, pos + 16 + t.len())
                =~= #[trigger] spec_ser_str(t) implies (content@ == t && p1 + lenu == pos + 16
            + t.len()) by {
            lemma_pow16_exact();
            lemma_hex_roundtrip(t.len() as int, 16);
            lemma_split2(s@, pos as int, spec_hex(t.len() as int, 16), t);
            assert(len as int == t.len());
            assert(content@ =~= t);
        }
    }
    Some((content, p1 + lenu))
}

/// The tag character of a partition role.
pub open spec fn graphkind_char(k: GraphKind) -> char {
    match k {
        GraphKind::Event => 'E',
        GraphKind::Construction => 'C',
        GraphKind::Function => 'F',
        GraphKind::Graph => 'G',
    }
}

/// The tag character of a pin direction.
pub open spec fn dir_char(d: PinDirection) -> char {
    match d {
        PinDirection::Input => 'i',
        PinDirection::Output => 'o',
    }
}

/// The tag character of a scalar kind.
pub open spec fn dt_char(t: DataType) -> char {
    match t {
        DataType::Exec => 'X',
        DataType::Bool => 'B',
        DataType::I32 => 'I',
        DataType::F32 => 'F',
        DataType::String => 'S',
        DataType::Unit => 'U',
    }
}

/// The tag character of a node kind.
pub open spec fn kind_char(k: BuiltinNodeKind) -> char {
    match k {
        BuiltinNodeKind::BeginPlay => 'B',
        BuiltinNodeKind::Tick => 'T',
        BuiltinNodeKind::ConstructionScript => 'C',
        BuiltinNodeKind::Print => 'P',
        BuiltinNodeKind::RhaiScript => 'R',
        BuiltinNodeKind::Branch => 'H',
        BuiltinNodeKind::GetVariable => 'G',
        BuiltinNodeKind::SetVariable => 'S',
        BuiltinNodeKind::Self_ => 'Z',
        BuiltinNodeKind::GetActorTransform => 'Q',
        BuiltinNodeKind::SetActorTransform => 'W',
        BuiltinNodeKind::SpawnActor => 'A',
        BuiltinNodeKind::GetActorByName => 'N',
        BuiltinNodeKind::GetActorName => 'M',
    }
}

/// A one-character string slice holding the given character, for the
/// tag characters the format uses.
fn tag_str(c: char) -> (r: &'static str)
    requires
        c == 'E' || c == 'C' || c == 'F' || c == 'G' || c == 'i' || c == 'o' || c == 'X' || c
            == 'B' || c == 'I' || c == 'S' || c == 'U' || c == 'T' || c == 'P' || c == 'R' || c
            == 'H' || c == 'Z' || c == 'Q' || c == 'W' || c == 'A' || c == 'N' || c == 'M' || c
            == 'b' || c == 'f' || c == 's' || c == 'u' || c == 'n' || c == 'v' || c == '0' || c
            == '1',
    ensures
        r@ =~= seq![c],
{
    let r = if c == 'E' { "E" } else if c == 'C' { "C" } else if c == 'F' { "F" }
    else if c == 'G' { "G" } else if c == 'i' { "i" } else if c == 'o' { "o" }
    else if c == 'X' { "X" } else if c == 'B' { "B" } else if c == 'I' { "I" }
    else if c == 'S' { "S" } else if c == 'U' { "U" } else if c == 'T' { "T" }
    else if c == 'P' { "P" } else if c == 'R' { "R" } else if c == 'H' { "H" }
    else if c == 'Z' { "Z" } else if c == 'Q' { "Q" } else if c == 'W' { "W" }
    else if c == 'A' { "A" } else if c == 'N' { "N" } else if c == 'M' { "M" }
    else if c == 'b' { "b" } else if c == 'f' { "f" } else if c == 's' { "s" }
    else if c == 'u' { "u" } else if c == 'n' { "n" } else if c == 'v' { "v" }
    else if c == '0' { "0" } else { "1" };
    proof {
        reveal_strlit("E"); reveal_strlit("C"); reveal_strlit("F"); reveal_strlit("G");
        reveal_strlit("i"); reveal_strlit("o"); reveal_strlit("X"); reveal_strlit("B");
        reveal_strlit("I"); reveal_strlit("S"); reveal_strlit("U"); reveal_strlit("T");
        reveal_strlit("P"); reveal_strlit("R"); reveal_strlit("H"); reveal_strlit("Z");
        reveal_strlit("Q"); reveal_strlit("W"); reveal_strlit("A"); reveal_strlit("N");
        reveal_strlit("M"); reveal_strlit("b"); reveal_strlit("f"); reveal_strlit("s");
        reveal_strlit("u"); reveal_strlit("n"); reveal_strlit("v"); reveal_strlit("0");
        reveal_strlit("1");
    }
    r
}

// ---------------------------------------------------------------------
// The format, type by type
// ---------------------------------------------------------------------

/// A value: a tag character, then its payload. Numbers are written as
/// their bit patterns.
pub open spec fn spec_ser_value(v: ValueT) -> Seq<char> {
    match v {
        ValueT::BoolV(b) => seq!['b', if b { '1' } else { '0' }],
        ValueT::I32V(i) => seq!['i'] + spec_hex((i as u32) as int, 8),
        ValueT::F32V(bits) => seq!['f'] + spec_hex(bits as int, 8),
        ValueT::StringV(t) => seq!['s'] + spec_ser_str(t),
        ValueT::UnitV => seq!['u'],
    }
}

/// A pin: id, name, direction, type.
pub open spec fn spec_ser_pin(p: PinT) -> Seq<char> {
    spec_hex(p.id as int, 8) + spec_ser_str(p.name) + seq![dir_char(p.direction)] + seq![
        dt_char(p.data_type),
    ]
}

/// A pin list, in order.
pub open spec fn spec_ser_pins(s: Seq<PinT>) -> Seq<char>
    decreases s.len(),
{
    if s.len() == 0 {
        Seq::empty()
    } else {
        spec_ser_pins(s.drop_last()) + spec_ser_pin(s.last())
    }
}

/// A property list, in order: key, then value.
pub open spec fn spec_ser_props(s: Seq<(Seq<char>, ValueT)>) -> Seq<char>
    decreases s.len(),
{
    if s.len() == 0 {
        Seq::empty()
    } else {
        spec_ser_props(s.drop_last()) + spec_ser_str(s.last().0) + spec_ser_value(s.last().1)
    }
}

/// A node: id, kind, partition tag, position bits, pins, properties.
pub open spec fn spec_ser_node(n: NodeT) -> Seq<char> {
    spec_hex(n.id.0 as int, 8) + seq![kind_char(n.kind)] + spec_ser_str(n.graph) + spec_hex(
        n.position.x_bits as int,
        8,
    ) + spec_hex(n.position.y_bits as int, 8) + spec_hex(n.pins.len() as int, 16) + spec_ser_pins(
        n.pins,
    ) + spec_hex(n.properties.len() as int, 16) + spec_ser_props(n.properties)
}

/// A node list, in order.
pub open spec fn spec_ser_nodes(s: Seq<NodeT>) -> Seq<char>
    decreases s.len(),
{
    if s.len() == 0 {
        Seq::empty()
    } else {
        spec_ser_nodes(s.drop_last()) + spec_ser_node(s.last())
    }
}

/// A link: the two pin ids.
pub open spec fn spec_ser_link(l: Link) -> Seq<char> {
    spec_hex(l.from.0 as int, 8) + spec_hex(l.to.0 as int, 8)
}

/// A link list, in order.
pub open spec fn spec_ser_links(s: Seq<Link>) -> Seq<char>
    decreases s.len(),
{
    if s.len() == 0 {
        Seq::empty()
    } else {
        spec_ser_links(s.drop_last()) + spec_ser_link(s.last())
    }
}

/// A variable: name, declared type, and the default if one is set.
pub open spec fn spec_ser_var(v: VarT) -> Seq<char> {
    spec_ser_str(v.name) + seq![dt_char(v.data_type)] + match v.default_value {
        Some(d) => seq!['v'] + spec_ser_value(d),
        None => seq!['n'],
    }
}

/// A variable list, in order.
pub open spec fn spec_ser_vars(s: Seq<VarT>) -> Seq<char>
    decreases s.len(),
{
    if s.len() == 0 {
        Seq::empty()
    } else {
        spec_ser_vars(s.drop_last()) + spec_ser_var(s.last())
    }
}

/// A partition list, in order: name, then role.
pub open spec fn spec_ser_graphdefs(s: Seq<(Seq<char>, GraphKind)>) -> Seq<char>
    decreases s.len(),
{
    if s.len() == 0 {
        Seq::empty()
    } else {
        spec_ser_graphdefs(s.drop_last()) + spec_ser_str(s.last().0) + seq![
            graphkind_char(s.last().1),
        ]
    }
}

/// The format's version.
pub open spec fn spec_format_version() -> int {
    1
}

/// The whole payload: version header, id, partitions, nodes, links,
/// variables, and the two id counters.
pub open spec fn spec_ser_graph(g: GraphT) -> Seq<char> {
    spec_hex(spec_format_version(), 8) + spec_ser_str(g.id) + spec_hex(g.graphs.len() as int, 16)
        + spec_ser_graphdefs(g.graphs) + spec_hex(g.nodes.len() as int, 16) + spec_ser_nodes(
        g.nodes,
    ) + spec_hex(g.links.len() as int, 16) + spec_ser_links(g.links) + spec_hex(
        g.variables.len() as int,
        16,
    ) + spec_ser_vars(g.variables) + spec_hex(g.next_node_id as int, 8) + spec_hex(
        g.next_pin_id as int,
        8,
    )
}

// ---------------------------------------------------------------------
// The writer
// ---------------------------------------------------------------------

/// Appends one value.
fn write_value(out: &mut String, v: &Value)
    ensures
        final(out)@ == old(out)@ + spec_ser_value(value_t(*v)),
        value_ok(value_t(*v)),
{
    match v {
        Value::Bool(b) => {
            out.append(tag_str('b'));
            if *b {
                out.append(tag_str('1'));
            } else {
                out.append(tag_str('0'));
            }
            proof {
                assert(final(out)@ =~= old(out)@ + spec_ser_value(value_t(*v)));
            }
        },
        Value::I32(i) => {
            out.append(tag_str('i'));
            write_hex(out, (*i as u32) as u64, 8);
            proof {
                assert(final(out)@ =~= old(out)@ + spec_ser_value(value_t(*v)));
            }
        },
        Value::F32(bits) => {
            out.append(tag_str('f'));
            write_hex(out, *bits as u64, 8);
            proof {
                assert(final(out)@ =~= old(out)@ + spec_ser_value(value_t(*v)));
            }
        },
        Value::String(t) => {
            out.append(tag_str('s'));
            write_str(out, t.as_str());
            proof {
                assert(final(out)@ =~= old(out)@ + spec_ser_value(value_t(*v)));
            }
        },
        Value::Unit => {
            out.append(tag_str('u'));
            proof {
                assert(final(out)@ =~= old(out)@ + spec_ser_value(value_t(*v)));
            }
        },
    }
}

/// Appends one node, with its pins and properties.
#[verifier::rlimit(100)]
fn write_node(out: &mut String, n: &Node)
    ensures
        final(out)@ == old(out)@ + spec_ser_node(node_t(*n)),
        node_ok(node_t(*n)),
{
    let ghost nt = node_t(*n);
    write_hex(out, n.id.0 as u64, 8);
    let kc = match n.kind {
        BuiltinNodeKind::BeginPlay => 'B',
        BuiltinNodeKind::Tick => 'T',
        BuiltinNodeKind::ConstructionScript => 'C',
        BuiltinNodeKind::Print => 'P',
        BuiltinNodeKind::RhaiScript => 'R',
        BuiltinNodeKind::Branch => 'H',
        BuiltinNodeKind::GetVariable => 'G',
        BuiltinNodeKind::SetVariable => 'S',
        BuiltinNodeKind::Self_ => 'Z',
        BuiltinNodeKind::GetActorTransform => 'Q',
        BuiltinNodeKind::SetActorTransform => 'W',
        BuiltinNodeKind::SpawnActor => 'A',
        BuiltinNodeKind::GetActorByName => 'N',
        BuiltinNodeKind::GetActorName => 'M',
    };
    out.append(tag_str(kc));
    write_str(out, n.graph.as_str());
    write_hex(out, n.position.x_bits as u64, 8);
    write_hex(out, n.position.y_bits as u64, 8);

    let np = n.pins.len();
    proof {
        lemma_pow16_exact();
    }
    write_hex(out, np as u64, 16);
    let ghost mark0 = out@;
    let mut i: usize = 0;
    while i < np
        invariant
            nt == node_t(*n),
            np == n.pins@.len(),
            i <= np,
            out@ == mark0 + spec_ser_pins(nt.pins.subrange(0, i as int)),
            forall|k: int| 0 <= k < i ==> pin_ok(#[trigger] nt.pins[k]),
        decreases np - i,
    {
        let p = &n.pins[i];
        let ghost markp = out@;
        write_hex(out, p.id.0 as u64, 8);
        write_str(out, p.name.as_str());
        let dc = match p.direction {
            PinDirection::Input => 'i',
            PinDirection::Output => 'o',
        };
        out.append(tag_str(dc));
        let tc = match p.data_type {
            DataType::Exec => 'X',
            DataType::Bool => 'B',
            DataType::I32 => 'I',
            DataType::F32 => 'F',
            DataType::String => 'S',
            DataType::Unit => 'U',
        };
        out.append(tag_str(tc));
        proof {
            assert(nt.pins[i as int] == pin_t(n.pins@[i as int]));
            assert(out@ =~= markp + spec_ser_pin(nt.pins[i as int]));
            assert(nt.pins.subrange(0, i + 1).drop_last() =~= nt.pins.subrange(0, i as int));
            assert(out@ =~= mark0 + spec_ser_pins(nt.pins.subrange(0, i + 1)));
        }
        i += 1;
    }
    proof {
        assert(nt.pins.subrange(0, np as int) =~= nt.pins);
    }

    let nq = n.properties.len();
    write_hex(out, nq as u64, 16);
    let ghost mark1 = out@;
    let mut j: usize = 0;
    while j < nq
        invariant
            nt == node_t(*n),
            nq == n.properties@.len(),
            j <= nq,
            out@ == mark1 + spec_ser_props(nt.properties.subrange(0, j as int)),
            forall|k: int| 0 <= k < j ==> str_ok((#[trigger] nt.properties[k]).0)
                && value_ok(nt.properties[k].1),
        decreases nq - j,
    {
        let ghost markq = out@;
        write_str(out, n.properties[j].0.as_str());
        write_value(out, &n.properties[j].1);
        proof {
            assert(nt.properties[j as int] == (
                n.properties@[j as int].0@,
                value_t(n.properties@[j as int].1),
            ));
            assert(nt.properties.subrange(0, j + 1).drop_last() =~= nt.properties.subrange(
                0,
                j as int,
            ));
            assert(out@ =~= mark1 + spec_ser_props(nt.properties.subrange(0, j + 1)));
        }
        j += 1;
    }
    proof {
        assert(nt.properties.subrange(0, nq as int) =~= nt.properties);
        assert(out@ =~= old(out)@ + spec_ser_node(nt));
    }
}

/// Appends the partition list.
fn write_graphdefs(out: &mut String, g: &BlueprintGraph)
    ensures
        final(out)@ == old(out)@ + spec_ser_graphdefs(graph_t(*g).graphs),
        forall|i: int| 0 <= i < graph_t(*g).graphs.len()
            ==> str_ok((#[trigger] graph_t(*g).graphs[i]).0),
{
    let ghost gt = graph_t(*g);
    let ng = g.graphs.len();
    let ghost mark0 = out@;
    let mut i: usize = 0;
    while i < ng
        invariant
            gt == graph_t(*g),
            ng == g.graphs@.len(),
            i <= ng,
            out@ == mark0 + spec_ser_graphdefs(gt.graphs.subrange(0, i as int)),
            forall|k: int| 0 <= k < i ==> str_ok((#[trigger] gt.graphs[k]).0),
        decreases ng - i,
    {
        write_str(out, g.graphs[i].name.as_str());
        let kc = match g.graphs[i].kind {
            GraphKind::Event => 'E',
            GraphKind::Construction => 'C',
            GraphKind::Function => 'F',
            GraphKind::Graph => 'G',
        };
        out.append(tag_str(kc));
        proof {
            assert(gt.graphs[i as int] == (g.graphs@[i as int].name@, g.graphs@[i as int].kind));
            assert(gt.graphs.subrange(0, i + 1).drop_last() =~= gt.graphs.subrange(0, i as int));
            assert(out@ =~= mark0 + spec_ser_graphdefs(gt.graphs.subrange(0, i + 1)));
        }
        i += 1;
    }
    proof {
        assert(gt.graphs.subrange(0, ng as int) =~= gt.graphs);
    }
}

/// Appends the node list.
fn write_nodes(out: &mut String, g: &BlueprintGraph)
    ensures
        final(out)@ == old(out)@ + spec_ser_nodes(graph_t(*g).nodes),
        forall|i: int| 0 <= i < graph_t(*g).nodes.len()
            ==> node_ok(#[trigger] graph_t(*g).nodes[i]),
{
    let ghost gt = graph_t(*g);
    let nn = g.nodes.len();
    let ghost mark1 = out@;
    let mut m: usize = 0;
    while m < nn
        invariant
            gt == graph_t(*g),
            nn == g.nodes@.len(),
            m <= nn,
            out@ == mark1 + spec_ser_nodes(gt.nodes.subrange(0, m as int)),
            forall|k: int| 0 <= k < m ==> node_ok(#[trigger] gt.nodes[k]),
        decreases nn - m,
    {
        write_node(out, &g.nodes[m]);
        proof {
            assert(gt.nodes[m as int] == node_t(g.nodes@[m as int]));
            assert(gt.nodes.subrange(0, m + 1).drop_last() =~= gt.nodes.subrange(0, m as int));
            assert(out@ =~= mark1 + spec_ser_nodes(gt.nodes.subrange(0, m + 1)));
        }
        m += 1;
    }
    proof {
        assert(gt.nodes.subrange(0, nn as int) =~= gt.nodes);
    }
}

/// Appends the link list.
fn write_links(out: &mut String, g: &BlueprintGraph)
    ensures
        final(out)@ == old(out)@ + spec_ser_links(graph_t(*g).links),
{
    let ghost gt = graph_t(*g);
    let nl = g.links.len();
    let ghost mark2 = out@;
    let mut k: usize = 0;
    while k < nl
        invariant
            gt == graph_t(*g),
            nl == g.links@.len(),
            k <= nl,
            out@ == mark2 + spec_ser_links(gt.links.subrange(0, k as int)),
        decreases nl - k,
    {
        write_hex(out, g.links[k].from.0 as u64, 8);
        write_hex(out, g.links[k].to.0 as u64, 8);
        proof {
            assert(gt.links[k as int] == g.links@[k as int]);
            assert(gt.links.subrange(0, k + 1).drop_last() =~= gt.links.subrange(0, k as int));
            assert(out@ =~= mark2 + spec_ser_links(gt.links.subrange(0, k + 1)));
        }
        k += 1;
    }
    proof {
        assert(gt.links.subrange(0, nl as int) =~= gt.links);
    }
}

/// Appends the variable list.
fn write_vars(out: &mut String, g: &BlueprintGraph)
    ensures
        final(out)@ == old(out)@ + spec_ser_vars(graph_t(*g).variables),
        forall|i: int| 0 <= i < graph_t(*g).variables.len()
            ==> var_ok(#[trigger] graph_t(*g).variables[i]),
{
    let ghost gt = graph_t(*g);
    let nv = g.variables.len();
    let ghost mark3 = out@;
    let mut q: usize = 0;
    while q < nv
        invariant
            gt == graph_t(*g),
            nv == g.variables@.len(),
            q <= nv,
            out@ == mark3 + spec_ser_vars(gt.variables.subrange(0, q as int)),
            forall|k: int| 0 <= k < q ==> var_ok(#[trigger] gt.variables[k]),
        decreases nv - q,
    {
        let v = &g.variables[q];
        let ghost markv = out@;
        write_str(out, v.name.as_str());
        let tc = match v.data_type {
            DataType::Exec => 'X',
            DataType::Bool => 'B',
            DataType::I32 => 'I',
            DataType::F32 => 'F',
            DataType::String => 'S',
            DataType::Unit => 'U',
        };
        out.append(tag_str(tc));
        match &v.default_value {
            Some(d) => {
                out.append(tag_str('v'));
                write_value(out, d);
            },
            None => {
                out.append(tag_str('n'));
            },
        }
        proof {
            assert(gt.variables[q as int] == var_t(g.variables@[q as int]));
            assert(out@ =~= markv + spec_ser_var(gt.variables[q as int]));
            assert(gt.variables.subrange(0, q + 1).drop_last() =~= gt.variables.subrange(
                0,
                q as int,
            ));
            assert(out@ =~= mark3 + spec_ser_vars(gt.variables.subrange(0, q + 1)));
        }
        q += 1;
    }
    proof {
        assert(gt.variables.subrange(0, nv as int) =~= gt.variables);
    }
}

/// Serializes the whole graph to its persisted text form.
#[verifier::rlimit(100)]
pub fn serialize(g: &BlueprintGraph) -> (r: String)
    ensures
        r@ == spec_ser_graph(graph_t(*g)),
        graph_fits(graph_t(*g)),
{
    let ghost gt = graph_t(*g);
    let mut out = String::new();
    proof {
        lemma_pow16_exact();
    }
    write_hex(&mut out, 1, 8);
    write_str(&mut out, g.id.0.as_str());
    write_hex(&mut out, g.graphs.len() as u64, 16);
    write_graphdefs(&mut out, g);
    write_hex(&mut out, g.nodes.len() as u64, 16);
    write_nodes(&mut out, g);
    write_hex(&mut out, g.links.len() as u64, 16);
    write_links(&mut out, g);
    write_hex(&mut out, g.variables.len() as u64, 16);
    write_vars(&mut out, g);
    write_hex(&mut out, g.next_node_id as u64, 8);
    write_hex(&mut out, g.next_pin_id as u64, 8);
    proof {
        assert(out@ =~= spec_ser_graph(gt));
    }
    out
}

// ---------------------------------------------------------------------
// Size bounds: what fits the fixed-width fields
// ---------------------------------------------------------------------

/// A string as short as anything held in memory: its length fits the
/// machine and therefore the sixteen-digit length field.
pub open spec fn str_ok(t: Seq<char>) -> bool {
    t.len() <= usize::MAX
}

/// Machine sizes fit the sixteen-digit fields.
pub proof fn lemma_usize_fits()
    ensures
        usize::MAX < pow16(16),
{
    lemma_pow16_exact();
}

/// A value whose payload fits the format.
pub open spec fn value_ok(v: ValueT) -> bool {
    match v {
        ValueT::StringV(t) => str_ok(t),
        _ => true,
    }
}

/// A pin whose name fits the format.
pub open spec fn pin_ok(p: PinT) -> bool {
    str_ok(p.name)
}

/// A node whose strings and lists fit the format.
pub open spec fn node_ok(n: NodeT) -> bool {
    &&& str_ok(n.graph)
    &&& n.pins.len() <= usize::MAX
    &&& n.properties.len() <= usize::MAX
    &&& forall|i: int| 0 <= i < n.pins.len() ==> pin_ok(#[trigger] n.pins[i])
    &&& forall|i: int| 0 <= i < n.properties.len() ==> str_ok((#[trigger] n.properties[i]).0)
        && value_ok(n.properties[i].1)
}

/// A variable whose name and default fit the format.
pub open spec fn var_ok(v: VarT) -> bool {
    &&& str_ok(v.name)
    &&& match v.default_value {
        Some(d) => value_ok(d),
        None => true,
    }
}

/// A graph whose strings and lists all fit the format. Anything held
/// in memory does; the bound only matters to the statement.
pub open spec fn graph_fits(g: GraphT) -> bool {
    &&& str_ok(g.id)
    &&& g.graphs.len() <= usize::MAX
    &&& g.nodes.len() <= usize::MAX
    &&& g.links.len() <= usize::MAX
    &&& g.variables.len() <= usize::MAX
    &&& forall|i: int| 0 <= i < g.graphs.len() ==> str_ok((#[trigger] g.graphs[i]).0)
    &&& forall|i: int| 0 <= i < g.nodes.len() ==> node_ok(#[trigger] g.nodes[i])
    &&& forall|i: int| 0 <= i < g.variables.len() ==> var_ok(#[trigger] g.variables[i])
}

// ---------------------------------------------------------------------
// The reader
// ---------------------------------------------------------------------

/// Reads a partition role tag.
fn parse_graphkind(s: &str, total: usize, pos: usize) -> (r: Option<(GraphKind, usize)>)
    requires
        total == s@.len(),
        pos <= total,
    ensures
        (r matches Some(rv) ==> rv.1 == pos + 1 && rv.1 <= total),
        forall|k: GraphKind|
            pos < total && s@[pos as int] == graphkind_char(k) ==> (r matches Some(rv) && rv.0
                == k && rv.1 == pos + 1),
{
    if pos >= total {
        return None;
    }
    let c = s.get_char(pos);
    if c == 'E' { Some((GraphKind::Event, pos + 1)) }
    else if c == 'C' { Some((GraphKind::Construction, pos + 1)) }
    else if c == 'F' { Some((GraphKind::Function, pos + 1)) }
    else if c == 'G' { Some((GraphKind::Graph, pos + 1)) }
    else { None }
}

/// Reads a pin direction tag.
fn parse_dir(s: &str, total: usize, pos: usize) -> (r: Option<(PinDirection, usize)>)
    requires
        total == s@.len(),
        pos <= total,
    ensures
        (r matches Some(rv) ==> rv.1 == pos + 1 && rv.1 <= total),
        forall|d: PinDirection|
            pos < total && s@[pos as int] == dir_char(d) ==> (r matches Some(rv) && rv.0 == d
                && rv.1 == pos + 1),
{
    if pos >= total {
        return None;
    }
    let c = s.get_char(pos);
    if c == 'i' { Some((PinDirection::Input, pos + 1)) }
    else if c == 'o' { Some((PinDirection::Output, pos + 1)) }
    else { None }
}

/// Reads a scalar kind tag.
fn parse_dt(s: &str, total: usize, pos: usize) -> (r: Option<(DataType, usize)>)
    requires
        total == s@.len(),
        pos <= total,
    ensures
        (r matches Some(rv) ==> rv.1 == pos + 1 && rv.1 <= total),
        forall|t: DataType|
            pos < total && s@[pos as int] == dt_char(t) ==> (r matches Some(rv) && rv.0 == t
                && rv.1 == pos + 1),
{
    if pos >= total {
        return None;
    }
    let c = s.get_char(pos);
    if c == 'X' { Some((DataType::Exec, pos + 1)) }
    else if c == 'B' { Some((DataType::Bool, pos + 1)) }
    else if c == 'I' { Some((DataType::I32, pos + 1)) }
    else if c == 'F' { Some((DataType::F32, pos + 1)) }
    else if c == 'S' { Some((DataType::String, pos + 1)) }
    else if c == 'U' { Some((DataType::Unit, pos + 1)) }
    else { None }
}

/// Reads a node kind tag.
fn parse_kind(s: &str, total: usize, pos: usize) -> (r: Option<(BuiltinNodeKind, usize)>)
    requires
        total == s@.len(),
        pos <= total,
    ensures
        (r matches Some(rv) ==> rv.1 == pos + 1 && rv.1 <= total),
        forall|k: BuiltinNodeKind|
            pos < total && s@[pos as int] == kind_char(k) ==> (r matches Some(rv) && rv.0 == k
                && rv.1 == pos + 1),
{
    if pos >= total {
        return None;
    }
    let c = s.get_char(pos);
    if c == 'B' { Some((BuiltinNodeKind::BeginPlay, pos + 1)) }
    else if c == 'T' { Some((BuiltinNodeKind::Tick, pos + 1)) }
    else if c == 'C' { Some((BuiltinNodeKind::ConstructionScript, pos + 1)) }
    else if c == 'P' { Some((BuiltinNodeKind::Print, pos + 1)) }
    else if c == 'R' { Some((BuiltinNodeKind::RhaiScript, pos + 1)) }
    else if c == 'H' { Some((BuiltinNodeKind::Branch, pos + 1)) }
    else if c == 'G' { Some((BuiltinNodeKind::GetVariable, pos + 1)) }
    else if c == 'S' { Some((BuiltinNodeKind::SetVariable, pos + 1)) }
    else if c == 'Z' { Some((BuiltinNodeKind::Self_, pos + 1)) }
    else if c == 'Q' { Some((BuiltinNodeKind::GetActorTransform, pos + 1)) }
    else if c == 'W' { Some((BuiltinNodeKind::SetActorTransform, pos + 1)) }
    else if c == 'A' { Some((BuiltinNodeKind::SpawnActor, pos + 1)) }
    else if c == 'N' { Some((BuiltinNodeKind::GetActorByName, pos + 1)) }
    else if c == 'M' { Some((BuiltinNodeKind::GetActorName, pos + 1)) }
    else { None }
}

/// Reads a value. Whenever the input at `pos` is the serialization of
/// a value that fits, that value comes back.
fn parse_value(s: &str, total: usize, pos: usize) -> (r: Option<(Value, usize)>)
    requires
        total == s@.len(),
        pos <= total,
    ensures
        (r matches Some(rv) ==> pos <= rv.1 <= total),
        forall|v: ValueT|
            #[trigger] value_matches_at(s@, total as int, pos as int, v) ==> (r matches Some(rv)
                && value_t(rv.0) == v && rv.1 == pos + spec_ser_value(v).len()),
{
    if pos >= total {
        proof {
            assert forall|v: ValueT| !value_matches_at(s@, total as int, pos as int, v) by {
                if value_matches_at(s@, total as int, pos as int, v) {
                    value_match_head(s@, total as int, pos as int, v);
                }
            }
        }
        return None;
    }
    let c = s.get_char(pos);
    if c == 'b' {
        if pos + 1 >= total {
            proof {
                assert forall|v: ValueT| !value_matches_at(s@, total as int, pos as int, v) by {
                    if value_matches_at(s@, total as int, pos as int, v) {
                        value_match_head(s@, total as int, pos as int, v);
                    }
                }
            }
            return None;
        }
        let b = s.get_char(pos + 1);
        proof {
            assert forall|v: ValueT|
                value_matches_at(s@, total as int, pos as int, v) implies (v matches
            ValueT::BoolV(bv) && s@[pos + 1] == (if bv { '1' } else { '0' })) by {
                value_match_head(s@, total as int, pos as int, v);
                match v {
                    ValueT::BoolV(bv) => {
                        assert(s@[pos + 1] == spec_ser_value(v)[1]);
                    },
                    _ => {},
                }
            }
        }
        if b == '1' {
            Some((Value::Bool(true), pos + 2))
        } else if b == '0' {
            Some((Value::Bool(false), pos + 2))
        } else {
            None
        }
    } else if c == 'i' {
        match parse_hex(s, total, pos + 1, 8) {
            Some((v64, p2)) => {
                let bits = #[verifier::truncate] (v64 as u32);
                let value = #[verifier::truncate] (bits as i32);
                proof {
                    assert forall|v: ValueT|
                        #[trigger] value_matches_at(s@, total as int, pos as int, v) implies (
                    value_t(Value::I32(value)) == v && p2 == pos + spec_ser_value(v).len()) by {
                        match v {
                            ValueT::I32V(iv) => {
                                lemma_pow16_8();
                                lemma_hex_roundtrip((iv as u32) as int, 8);
                                lemma_split2(
                                    s@,
                                    pos as int,
                                    seq!['i'],
                                    spec_hex((iv as u32) as int, 8),
                                );
                                assert(v64 as int == (iv as u32) as int);
                                assert(bits == iv as u32);
                                assert((iv as u32) as i32 == iv) by (bit_vector);
                            },
                            _ => {
                                value_match_head(s@, total as int, pos as int, v);
                            },
                        }
                    }
                }
                Some((Value::I32(value), p2))
            },
            None => {
                proof {
                    assert forall|v: ValueT|
                        !value_matches_at(s@, total as int, pos as int, v) by {
                        if value_matches_at(s@, total as int, pos as int, v) {
                            match v {
                                ValueT::I32V(iv) => {
                                    lemma_pow16_8();
                                    lemma_hex_roundtrip((iv as u32) as int, 8);
                                    lemma_split2(
                                        s@,
                                        pos as int,
                                        seq!['i'],
                                        spec_hex((iv as u32) as int, 8),
                                    );
                                },
                                _ => {
                                    value_match_head(s@, total as int, pos as int, v);
                                },
                            }
                        }
                    }
                }
                None
            },
        }
    } else if c == 'f' {
        match parse_hex(s, total, pos + 1, 8) {
            Some((v64, p2)) => {
                let bits = #[verifier::truncate] (v64 as u32);
                proof {
                    assert forall|v: ValueT|
                        #[trigger] value_matches_at(s@, total as int, pos as int, v) implies (
                    value_t(Value::F32(bits)) == v && p2 == pos + spec_ser_value(v).len()) by {
                        match v {
                            ValueT::F32V(fb) => {
                                lemma_pow16_8();
                                lemma_hex_roundtrip(fb as int, 8);
                                lemma_split2(s@, pos as int, seq!['f'], spec_hex(fb as int, 8));
                                assert(v64 as int == fb as int);
                            },
                            _ => {
                                value_match_head(s@, total as int, pos as int, v);
                            },
                        }
                    }
                }
                Some((Value::F32(bits), p2))
            },
            None => {
                proof {
                    assert forall|v: ValueT|
                        !value_matches_at(s@, total as int, pos as int, v) by {
                        if value_matches_at(s@, total as int, pos as int, v) {
                            match v {
                                ValueT::F32V(fb) => {
                                    lemma_pow16_8();
                                    lemma_hex_roundtrip(fb as int, 8);
                                    lemma_split2(s@, pos as int, seq!['f'], spec_hex(fb as int, 8));
                                },
                                _ => {
                                    value_match_head(s@, total as int, pos as int, v);
                                },
                            }
                        }
                    }
                }
                None
            },
        }
    } else if c == 's' {
        match parse_str(s, total, pos + 1) {
            Some((text, p2)) => {
                proof {
                    assert forall|v: ValueT|
                        #[trigger] value_matches_at(s@, total as int, pos as int, v) implies (
                    value_t(Value::String(text)) == v && p2 == pos + spec_ser_value(v).len()) by {
                        match v {
                            ValueT::StringV(t) => {
                                lemma_pow16_exact();
                                lemma_hex_roundtrip(t.len() as int, 16);
                                lemma_split2(s@, pos as int, seq!['s'], spec_ser_str(t));
                            },
                            _ => {
                                value_match_head(s@, total as int, pos as int, v);
                            },
                        }
                    }
                }
                Some((Value::String(text), p2))
            },
            None => {
                proof {
                    assert forall|v: ValueT|
                        !value_matches_at(s@, total as int, pos as int, v) by {
                        if value_matches_at(s@, total as int, pos as int, v) {
                            match v {
                                ValueT::StringV(t) => {
                                    lemma_pow16_exact();
                                    lemma_hex_roundtrip(t.len() as int, 16);
                                    lemma_split2(s@, pos as int, seq!['s'], spec_ser_str(t));
                                },
                                _ => {
                                    value_match_head(s@, total as int, pos as int, v);
                                },
                            }
                        }
                    }
                }
                None
            },
        }
    } else if c == 'u' {
        proof {
            assert forall|v: ValueT|
                value_matches_at(s@, total as int, pos as int, v) implies v == ValueT::UnitV by {
                value_match_head(s@, total as int, pos as int, v);
            }
        }
        Some((Value::Unit, pos + 1))
    } else {
        proof {
            assert forall|v: ValueT| !value_matches_at(s@, total as int, pos as int, v) by {
                if value_matches_at(s@, total as int, pos as int, v) {
                    value_match_head(s@, total as int, pos as int, v);
                }
            }
        }
        None
    }
}

/// That the input at `pos` is the serialization of this value.
pub open spec fn value_matches_at(s: Seq<char>, total: int, pos: int, v: ValueT) -> bool {
    &&& value_ok(v)
    &&& pos + spec_ser_value(v).len() <= total
    &&& total == s.len()
    &&& 0 <= pos
    &&& s.subrange(pos, pos + spec_ser_value(v).len()) =~= spec_ser_value(v)
}

/// A matching value's tag character stands at `pos`.
proof fn value_match_head(s: Seq<char>, total: int, pos: int, v: ValueT)
    requires
        value_matches_at(s, total, pos, v),
    ensures
        pos < total,
        s[pos] == spec_ser_value(v)[0],
        (v matches ValueT::BoolV(bv) ==> s[pos] == 'b' && pos + 2 <= total),
        (v matches ValueT::I32V(_) ==> s[pos] == 'i'),
        (v matches ValueT::F32V(_) ==> s[pos] == 'f'),
        (v matches ValueT::StringV(_) ==> s[pos] == 's'),
        (v == ValueT::UnitV ==> s[pos] == 'u'),
{
    assert(spec_ser_value(v).len() > 0);
    assert(s.subrange(pos, pos + spec_ser_value(v).len())[0] == s[pos]);
}


/// That the input at `pos` is the serialization of this pin.
pub open spec fn pin_matches_at(s: Seq<char>, total: int, pos: int, p: PinT) -> bool {
    &&& pin_ok(p)
    &&& total == s.len()
    &&& 0 <= pos
    &&& pos + spec_ser_pin(p).len() <= total
    &&& s.subrange(pos, pos + spec_ser_pin(p).len()) =~= spec_ser_pin(p)
}

/// Where each field of a matching pin stands.
proof fn pin_match_parts(s: Seq<char>, total: int, pos: int, p: PinT)
    requires
        pin_matches_at(s, total, pos, p),
        total <= usize::MAX,
    ensures
        spec_ser_pin(p).len() == 8 + 16 + p.name.len() + 2,
        pos + 8 + 16 + p.name.len() + 2 <= total,
        s.subrange(pos, pos + 8) =~= spec_hex(p.id as int, 8),
        s.subrange(pos + 8, pos + 8 + 16 + p.name.len()) =~= spec_ser_str(p.name),
        s[pos + 8 + 16 + p.name.len()] == dir_char(p.direction),
        s[pos + 8 + 16 + p.name.len() + 1] == dt_char(p.data_type),
{
    lemma_pow16_8();
    lemma_pow16_exact();
    lemma_hex_roundtrip(p.id as int, 8);
    assert(p.name.len() <= total);
    lemma_hex_roundtrip(p.name.len() as int, 16);
    let seg1 = spec_hex(p.id as int, 8);
    let seg2 = spec_ser_str(p.name);
    let seg3 = seq![dir_char(p.direction)];
    let seg4 = seq![dt_char(p.data_type)];
    assert(spec_ser_pin(p) =~= seg1 + (seg2 + (seg3 + seg4)));
    lemma_split2(s, pos, seg1, seg2 + (seg3 + seg4));
    lemma_split2(s, pos + 8, seg2, seg3 + seg4);
    lemma_split2(s, pos + 8 + 16 + p.name.len(), seg3, seg4);
    assert(s.subrange(
        pos + 8 + 16 + p.name.len(),
        pos + 8 + 16 + p.name.len() + 1,
    )[0] == s[pos + 8 + 16 + p.name.len()]);
    assert(s.subrange(
        pos + 8 + 16 + p.name.len() + 1,
        pos + 8 + 16 + p.name.len() + 2,
    )[0] == s[pos + 8 + 16 + p.name.len() + 1]);
}

/// Reads one pin.
fn parse_pin(s: &str, total: usize, pos: usize) -> (r: Option<(Pin, usize)>)
    requires
        total == s@.len(),
        pos <= total,
    ensures
        (r matches Some(rv) ==> pos <= rv.1 <= total),
        forall|p: PinT|
            #[trigger] pin_matches_at(s@, total as int, pos as int, p) ==> (r matches Some(rv)
                && pin_t(rv.0) == p && rv.1 == pos + spec_ser_pin(p).len()),
{
    let (idv, p1) = match parse_hex(s, total, pos, 8) {
        Some(v) => v,
        None => {
            proof {
                assert forall|p: PinT| !pin_matches_at(s@, total as int, pos as int, p) by {
                    if pin_matches_at(s@, total as int, pos as int, p) {
                        pin_match_parts(s@, total as int, pos as int, p);
                        lemma_pow16_8();
                        lemma_hex_roundtrip(p.id as int, 8);
                    }
                }
            }
            return None;
        },
    };
    let (name, p2) = match parse_str(s, total, p1) {
        Some(v) => v,
        None => {
            proof {
                assert forall|p: PinT| !pin_matches_at(s@, total as int, pos as int, p) by {
                    if pin_matches_at(s@, total as int, pos as int, p) {
                        pin_match_parts(s@, total as int, pos as int, p);
                    }
                }
            }
            return None;
        },
    };
    let (direction, p3) = match parse_dir(s, total, p2) {
        Some(v) => v,
        None => {
            proof {
                assert forall|p: PinT| !pin_matches_at(s@, total as int, pos as int, p) by {
                    if pin_matches_at(s@, total as int, pos as int, p) {
                        pin_match_parts(s@, total as int, pos as int, p);
                    }
                }
            }
            return None;
        },
    };
    let (data_type, p4) = match parse_dt(s, total, p3) {
        Some(v) => v,
        None => {
            proof {
                assert forall|p: PinT| !pin_matches_at(s@, total as int, pos as int, p) by {
                    if pin_matches_at(s@, total as int, pos as int, p) {
                        pin_match_parts(s@, total as int, pos as int, p);
                    }
                }
            }
            return None;
        },
    };
    let bits = #[verifier::truncate] (idv as u32);
    let pin = Pin { id: PinId(bits), name, direction, data_type };
    proof {
        assert forall|p: PinT|
            #[trigger] pin_matches_at(s@, total as int, pos as int, p) implies (pin_t(pin) == p
            && p4 == pos + spec_ser_pin(p).len()) by {
            pin_match_parts(s@, total as int, pos as int, p);
            lemma_pow16_8();
            lemma_hex_roundtrip(p.id as int, 8);
            assert(pin_t(pin) =~= p);
        }
    }
    Some((pin, p4))
}

/// The serialization of a pin list from its `j`-th entry on.
pub open spec fn spec_ser_pins_from(ls: Seq<PinT>, j: int) -> Seq<char>
    decreases ls.len() - j,
{
    if j < 0 || j >= ls.len() {
        Seq::empty()
    } else {
        spec_ser_pin(ls[j]) + spec_ser_pins_from(ls, j + 1)
    }
}

/// A pin list serializes as any front part and the rest.
proof fn lemma_ser_pins_split(ls: Seq<PinT>, j: int)
    requires
        0 <= j <= ls.len(),
    ensures
        spec_ser_pins(ls) =~= spec_ser_pins(ls.subrange(0, j)) + spec_ser_pins_from(ls, j),
    decreases ls.len() - j,
{
    if j == ls.len() {
        assert(ls.subrange(0, j) =~= ls);
    } else {
        lemma_ser_pins_split(ls, j + 1);
        assert(ls.subrange(0, j + 1).drop_last() =~= ls.subrange(0, j));
        assert(ls.subrange(0, j + 1).last() == ls[j]);
        assert(spec_ser_pins(ls.subrange(0, j + 1)) =~= spec_ser_pins(ls.subrange(0, j))
            + spec_ser_pin(ls[j]));
    }
}

/// That the input at `pos` is the serialization of this pin list.
pub open spec fn pins_match_at(s: Seq<char>, total: int, pos: int, ls: Seq<PinT>) -> bool {
    &&& forall|i: int| 0 <= i < ls.len() ==> pin_ok(#[trigger] ls[i])
    &&& total == s.len()
    &&& 0 <= pos
    &&& pos + spec_ser_pins(ls).len() <= total
    &&& s.subrange(pos, pos + spec_ser_pins(ls).len()) =~= spec_ser_pins(ls)
}

/// Reads `count` pins.
fn parse_pins(s: &str, total: usize, pos: usize, count: usize) -> (r: Option<(Vec<Pin>, usize)>)
    requires
        total == s@.len(),
        pos <= total,
    ensures
        (r matches Some(rv) ==> pos <= rv.1 <= total),
        forall|ls: Seq<PinT>|
            ls.len() == count && #[trigger] pins_match_at(s@, total as int, pos as int, ls) ==> (
            r matches Some(rv) && rv.0@.map_values(|x: Pin| pin_t(x)) == ls && rv.1 == pos
                + spec_ser_pins(ls).len()),
{
    let mut out: Vec<Pin> = Vec::new();
    let mut cur: usize = pos;
    let mut i: usize = 0;
    while i < count
        invariant
            total == s@.len(),
            pos <= cur <= total,
            i <= count,
            out@.len() == i,
            forall|ls: Seq<PinT>|
                ls.len() == count && #[trigger] pins_match_at(s@, total as int, pos as int, ls)
                    ==> (out@.map_values(|x: Pin| pin_t(x)) =~= ls.subrange(0, i as int) && cur
                    == pos + spec_ser_pins(ls.subrange(0, i as int)).len()),
        decreases count - i,
    {
        let (pin, next) = match parse_pin(s, total, cur) {
            Some(v) => v,
            None => {
                proof {
                    assert forall|ls: Seq<PinT>|
                        !(ls.len() == count && #[trigger] pins_match_at(
                            s@,
                            total as int,
                            pos as int,
                            ls,
                        )) by {
                        if ls.len() == count && pins_match_at(s@, total as int, pos as int, ls) {
                            pins_step(s@, total as int, pos as int, ls, i as int, cur as int);
                        }
                    }
                }
                return None;
            },
        };
        proof {
            assert forall|ls: Seq<PinT>|
                ls.len() == count && #[trigger] pins_match_at(s@, total as int, pos as int, ls)
                    implies (out@.push(pin).map_values(|x: Pin| pin_t(x)) =~= ls.subrange(
                    0,
                    i + 1,
                ) && next == pos + spec_ser_pins(ls.subrange(0, i + 1)).len()) by {
                pins_step(s@, total as int, pos as int, ls, i as int, cur as int);
                assert(pin_t(pin) == ls[i as int]);
                assert(ls.subrange(0, i + 1).drop_last() =~= ls.subrange(0, i as int));
                assert(spec_ser_pins(ls.subrange(0, i + 1)) =~= spec_ser_pins(ls.subrange(
                    0,
                    i as int,
                )) + spec_ser_pin(ls[i as int]));
                assert(out@.push(pin).map_values(|x: Pin| pin_t(x)) =~= out@.map_values(
                    |x: Pin| pin_t(x),
                ).push(pin_t(pin)));
                assert(out@.push(pin).map_values(|x: Pin| pin_t(x)) =~= ls.subrange(0, i + 1));
            }
        }
        out.push(pin);
        cur = next;
        i += 1;
    }
    proof {
        assert forall|ls: Seq<PinT>|
            ls.len() == count && #[trigger] pins_match_at(s@, total as int, pos as int, ls)
                implies (out@.map_values(|x: Pin| pin_t(x)) =~= ls && cur == pos + spec_ser_pins(
            ls,
        ).len()) by {
            assert(ls.subrange(0, count as int) =~= ls);
        }
    }
    Some((out, cur))
}

/// At step `i` of reading a pin list, the `i`-th pin stands at `cur`.
proof fn pins_step(s: Seq<char>, total: int, pos: int, ls: Seq<PinT>, i: int, cur: int)
    requires
        pins_match_at(s, total, pos, ls),
        total <= usize::MAX,
        0 <= i < ls.len(),
        cur == pos + spec_ser_pins(ls.subrange(0, i)).len(),
    ensures
        pin_matches_at(s, total, cur, ls[i]),
{
    lemma_ser_pins_split(ls, i);
    assert(spec_ser_pins_from(ls, i) =~= spec_ser_pin(ls[i]) + spec_ser_pins_from(ls, i + 1));
    lemma_split2(s, pos, spec_ser_pins(ls.subrange(0, i)), spec_ser_pins_from(ls, i));
    lemma_split2(s, cur, spec_ser_pin(ls[i]), spec_ser_pins_from(ls, i + 1));
}

/// One property's serialization: key, then value.
pub open spec fn spec_ser_prop(e: (Seq<char>, ValueT)) -> Seq<char> {
    spec_ser_str(e.0) + spec_ser_value(e.1)
}

/// That the input at `pos` is the serialization of this property.
pub open spec fn prop_matches_at(s: Seq<char>, total: int, pos: int, e: (Seq<char>, ValueT)) -> bool {
    &&& str_ok(e.0)
    &&& value_ok(e.1)
    &&& total == s.len()
    &&& 0 <= pos
    &&& pos + spec_ser_prop(e).len() <= total
    &&& s.subrange(pos, pos + spec_ser_prop(e).len()) =~= spec_ser_prop(e)
}

/// Where each part of a matching property stands.
proof fn prop_match_parts(s: Seq<char>, total: int, pos: int, e: (Seq<char>, ValueT))
    requires
        prop_matches_at(s, total, pos, e),
        total <= usize::MAX,
    ensures
        pos + 16 + e.0.len() <= total,
        s.subrange(pos, pos + 16 + e.0.len()) =~= spec_ser_str(e.0),
        value_matches_at(s, total, pos + 16 + e.0.len(), e.1),
        spec_ser_prop(e).len() == 16 + e.0.len() + spec_ser_value(e.1).len(),
{
    lemma_pow16_exact();
    assert(e.0.len() <= total);
    lemma_hex_roundtrip(e.0.len() as int, 16);
    lemma_split2(s, pos, spec_ser_str(e.0), spec_ser_value(e.1));
}

/// Reads one property: a key and a value.
fn parse_prop(s: &str, total: usize, pos: usize) -> (r: Option<((String, Value), usize)>)
    requires
        total == s@.len(),
        pos <= total,
    ensures
        (r matches Some(rv) ==> pos <= rv.1 <= total),
        forall|e: (Seq<char>, ValueT)|
            #[trigger] prop_matches_at(s@, total as int, pos as int, e) ==> (r matches Some(rv)
                && rv.0.0@ == e.0 && value_t(rv.0.1) == e.1 && rv.1 == pos + spec_ser_prop(
                e,
            ).len()),
{
    let (key, p1) = match parse_str(s, total, pos) {
        Some(v) => v,
        None => {
            proof {
                assert forall|e: (Seq<char>, ValueT)|
                    !prop_matches_at(s@, total as int, pos as int, e) by {
                    if prop_matches_at(s@, total as int, pos as int, e) {
                        prop_match_parts(s@, total as int, pos as int, e);
                    }
                }
            }
            return None;
        },
    };
    let (value, p2) = match parse_value(s, total, p1) {
        Some(v) => v,
        None => {
            proof {
                assert forall|e: (Seq<char>, ValueT)|
                    !prop_matches_at(s@, total as int, pos as int, e) by {
                    if prop_matches_at(s@, total as int, pos as int, e) {
                        prop_match_parts(s@, total as int, pos as int, e);
                    }
                }
            }
            return None;
        },
    };
    proof {
        assert forall|e: (Seq<char>, ValueT)|
            #[trigger] prop_matches_at(s@, total as int, pos as int, e) implies (key@ == e.0
            && value_t(value) == e.1 && p2 == pos + spec_ser_prop(e).len()) by {
            prop_match_parts(s@, total as int, pos as int, e);
        }
    }
    Some(((key, value), p2))
}

/// The serialization of a property list from its `j`-th entry on.
pub open spec fn spec_ser_props_from(ls: Seq<(Seq<char>, ValueT)>, j: int) -> Seq<char>
    decreases ls.len() - j,
{
    if j < 0 || j >= ls.len() {
        Seq::empty()
    } else {
        spec_ser_prop(ls[j]) + spec_ser_props_from(ls, j + 1)
    }
}

/// A property list serializes as any front part and the rest.
proof fn lemma_ser_props_split(ls: Seq<(Seq<char>, ValueT)>, j: int)
    requires
        0 <= j <= ls.len(),
    ensures
        spec_ser_props(ls) =~= spec_ser_props(ls.subrange(0, j)) + spec_ser_props_from(ls, j),
    decreases ls.len() - j,
{
    if j == ls.len() {
        assert(ls.subrange(0, j) =~= ls);
    } else {
        lemma_ser_props_split(ls, j + 1);
        assert(ls.subrange(0, j + 1).drop_last() =~= ls.subrange(0, j));
        assert(ls.subrange(0, j + 1).last() == ls[j]);
        assert(spec_ser_props(ls.subrange(0, j + 1)) =~= spec_ser_props(ls.subrange(0, j))
            + spec_ser_prop(ls[j]));
    }
}

/// That the input at `pos` is the serialization of this property list.
pub open spec fn props_match_at(
    s: Seq<char>,
    total: int,
    pos: int,
    ls: Seq<(Seq<char>, ValueT)>,
) -> bool {
    &&& forall|i: int| 0 <= i < ls.len() ==> str_ok((#[trigger] ls[i]).0) && value_ok(ls[i].1)
    &&& total == s.len()
    &&& 0 <= pos
    &&& pos + spec_ser_props(ls).len() <= total
    &&& s.subrange(pos, pos + spec_ser_props(ls).len()) =~= spec_ser_props(ls)
}

/// At step `i` of reading a property list, the `i`-th entry stands at
/// `cur`.
proof fn props_step(
    s: Seq<char>,
    total: int,
    pos: int,
    ls: Seq<(Seq<char>, ValueT)>,
    i: int,
    cur: int,
)
    requires
        props_match_at(s, total, pos, ls),
        total <= usize::MAX,
        0 <= i < ls.len(),
        cur == pos + spec_ser_props(ls.subrange(0, i)).len(),
    ensures
        prop_matches_at(s, total, cur, ls[i]),
{
    lemma_ser_props_split(ls, i);
    assert(spec_ser_props_from(ls, i) =~= spec_ser_prop(ls[i]) + spec_ser_props_from(ls, i + 1));
    lemma_split2(s, pos, spec_ser_props(ls.subrange(0, i)), spec_ser_props_from(ls, i));
    lemma_split2(s, cur, spec_ser_prop(ls[i]), spec_ser_props_from(ls, i + 1));
}

/// Reads `count` properties.
fn parse_props(s: &str, total: usize, pos: usize, count: usize) -> (r: Option<
    (Vec<(String, Value)>, usize),
>)
    requires
        total == s@.len(),
        pos <= total,
    ensures
        (r matches Some(rv) ==> pos <= rv.1 <= total),
        forall|ls: Seq<(Seq<char>, ValueT)>|
            ls.len() == count && #[trigger] props_match_at(s@, total as int, pos as int, ls)
                ==> (r matches Some(rv) && props_t(rv.0@) == ls && rv.1 == pos + spec_ser_props(
                ls,
            ).len()),
{
    let mut out: Vec<(String, Value)> = Vec::new();
    let mut cur: usize = pos;
    let mut i: usize = 0;
    while i < count
        invariant
            total == s@.len(),
            pos <= cur <= total,
            i <= count,
            out@.len() == i,
            forall|ls: Seq<(Seq<char>, ValueT)>|
                ls.len() == count && #[trigger] props_match_at(s@, total as int, pos as int, ls)
                    ==> (props_t(out@) =~= ls.subrange(0, i as int) && cur == pos
                    + spec_ser_props(ls.subrange(0, i as int)).len()),
        decreases count - i,
    {
        let (entry, next) = match parse_prop(s, total, cur) {
            Some(v) => v,
            None => {
                proof {
                    assert forall|ls: Seq<(Seq<char>, ValueT)>|
                        !(ls.len() == count && #[trigger] props_match_at(
                            s@,
                            total as int,
                            pos as int,
                            ls,
                        )) by {
                        if ls.len() == count && props_match_at(s@, total as int, pos as int, ls) {
                            props_step(s@, total as int, pos as int, ls, i as int, cur as int);
                        }
                    }
                }
                return None;
            },
        };
        proof {
            assert forall|ls: Seq<(Seq<char>, ValueT)>|
                ls.len() == count && #[trigger] props_match_at(s@, total as int, pos as int, ls)
                    implies (props_t(out@.push(entry)) =~= ls.subrange(0, i + 1) && next == pos
                    + spec_ser_props(ls.subrange(0, i + 1)).len()) by {
                props_step(s@, total as int, pos as int, ls, i as int, cur as int);
                assert((entry.0@, value_t(entry.1)) == ls[i as int]);
                assert(ls.subrange(0, i + 1).drop_last() =~= ls.subrange(0, i as int));
                assert(spec_ser_props(ls.subrange(0, i + 1)) =~= spec_ser_props(ls.subrange(
                    0,
                    i as int,
                )) + spec_ser_prop(ls[i as int]));
                assert(props_t(out@.push(entry)) =~= props_t(out@).push(
                    (entry.0@, value_t(entry.1)),
                ));
                assert(props_t(out@.push(entry)) =~= ls.subrange(0, i + 1));
            }
        }
        out.push(entry);
        cur = next;
        i += 1;
    }
    proof {
        assert forall|ls: Seq<(Seq<char>, ValueT)>|
            ls.len() == count && #[trigger] props_match_at(s@, total as int, pos as int, ls)
                implies (props_t(out@) =~= ls && cur == pos + spec_ser_props(ls).len()) by {
            assert(ls.subrange(0, count as int) =~= ls);
        }
    }
    Some((out, cur))
}

/// That the input at `pos` is the serialization of this node.
pub open spec fn node_matches_at(s: Seq<char>, total: int, pos: int, n: NodeT) -> bool {
    &&& node_ok(n)
    &&& total == s.len()
    &&& 0 <= pos
    &&& pos + spec_ser_node(n).len() <= total
    &&& s.subrange(pos, pos + spec_ser_node(n).len()) =~= spec_ser_node(n)
}

/// Where each field of a matching node stands.
proof fn node_match_parts(s: Seq<char>, total: int, pos: int, n: NodeT)
    requires
        node_matches_at(s, total, pos, n),
        total <= usize::MAX,
    ensures
        ({
            let q2 = pos + 9;
            let q3 = q2 + 16 + n.graph.len();
            let q5 = q3 + 16;
            let q6 = q5 + 16;
            let q7 = q6 + spec_ser_pins(n.pins).len();
            let q8 = q7 + 16;
            let q9 = q8 + spec_ser_props(n.properties).len();
            &&& q9 == pos + spec_ser_node(n).len()
            &&& q9 <= total
            &&& s.subrange(pos, pos + 8) =~= spec_hex(n.id.0 as int, 8)
            &&& s[pos + 8] == kind_char(n.kind)
            &&& s.subrange(q2, q2 + 16 + n.graph.len()) =~= spec_ser_str(n.graph)
            &&& s.subrange(q3, q3 + 8) =~= spec_hex(n.position.x_bits as int, 8)
            &&& s.subrange(q3 + 8, q3 + 16) =~= spec_hex(n.position.y_bits as int, 8)
            &&& s.subrange(q5, q5 + 16) =~= spec_hex(n.pins.len() as int, 16)
            &&& pins_match_at(s, total, q6, n.pins)
            &&& s.subrange(q7, q7 + 16) =~= spec_hex(n.properties.len() as int, 16)
            &&& props_match_at(s, total, q8, n.properties)
        }),
{
    lemma_pow16_8();
    lemma_pow16_exact();
    lemma_hex_roundtrip(n.id.0 as int, 8);
    assert(n.graph.len() <= total);
    lemma_hex_roundtrip(n.graph.len() as int, 16);
    lemma_hex_roundtrip(n.position.x_bits as int, 8);
    lemma_hex_roundtrip(n.position.y_bits as int, 8);
    lemma_hex_roundtrip(n.pins.len() as int, 16);
    lemma_hex_roundtrip(n.properties.len() as int, 16);
    let a1 = spec_hex(n.id.0 as int, 8);
    let a2 = seq![kind_char(n.kind)];
    let a3 = spec_ser_str(n.graph);
    let a4 = spec_hex(n.position.x_bits as int, 8);
    let a5 = spec_hex(n.position.y_bits as int, 8);
    let a6 = spec_hex(n.pins.len() as int, 16);
    let a7 = spec_ser_pins(n.pins);
    let a8 = spec_hex(n.properties.len() as int, 16);
    let a9 = spec_ser_props(n.properties);
    let r9: Seq<char> = a9;
    let r8 = a8 + r9;
    let r7 = a7 + r8;
    let r6 = a6 + r7;
    let r5 = a5 + r6;
    let r4 = a4 + r5;
    let r3 = a3 + r4;
    let r2 = a2 + r3;
    assert(spec_ser_node(n) =~= a1 + r2);
    lemma_split2(s, pos, a1, r2);
    lemma_split2(s, pos + 8, a2, r3);
    lemma_split2(s, pos + 9, a3, r4);
    let q3 = pos + 9 + 16 + n.graph.len();
    lemma_split2(s, q3, a4, r5);
    lemma_split2(s, q3 + 8, a5, r6);
    lemma_split2(s, q3 + 16, a6, r7);
    let q6 = q3 + 32;
    lemma_split2(s, q6, a7, r8);
    let q7 = q6 + a7.len();
    lemma_split2(s, q7, a8, r9);
    assert(s.subrange(pos + 8, pos + 9)[0] == s[pos + 8]);
}

/// Reads one node.
#[verifier::rlimit(100)]
fn parse_node(s: &str, total: usize, pos: usize) -> (r: Option<(Node, usize)>)
    requires
        total == s@.len(),
        pos <= total,
    ensures
        (r matches Some(rv) ==> pos <= rv.1 <= total),
        forall|n: NodeT|
            #[trigger] node_matches_at(s@, total as int, pos as int, n) ==> (r matches Some(rv)
                && node_t(rv.0) == n && rv.1 == pos + spec_ser_node(n).len()),
{
    let (idv, p1) = match parse_hex(s, total, pos, 8) {
        Some(v) => v,
        None => {
            proof {
                assert forall|n: NodeT| !node_matches_at(s@, total as int, pos as int, n) by {
                    if node_matches_at(s@, total as int, pos as int, n) {
                        node_match_parts(s@, total as int, pos as int, n);
                        lemma_pow16_8();
                        lemma_hex_roundtrip(n.id.0 as int, 8);
                    }
                }
            }
            return None;
        },
    };
    let (kind, p2) = match parse_kind(s, total, p1) {
        Some(v) => v,
        None => {
            proof {
                assert forall|n: NodeT| !node_matches_at(s@, total as int, pos as int, n) by {
                    if node_matches_at(s@, total as int, pos as int, n) {
                        node_match_parts(s@, total as int, pos as int, n);
                    }
                }
            }
            return None;
        },
    };
    let (graph, p3) = match parse_str(s, total, p2) {
        Some(v) => v,
        None => {
            proof {
                assert forall|n: NodeT| !node_matches_at(s@, total as int, pos as int, n) by {
                    if node_matches_at(s@, total as int, pos as int, n) {
                        node_match_parts(s@, total as int, pos as int, n);
                    }
                }
            }
            return None;
        },
    };
    let (xv, p4) = match parse_hex(s, total, p3, 8) {
        Some(v) => v,
        None => {
            proof {
                assert forall|n: NodeT| !node_matches_at(s@, total as int, pos as int, n) by {
                    if node_matches_at(s@, total as int, pos as int, n) {
                        node_match_parts(s@, total as int, pos as int, n);
                        lemma_pow16_8();
                        lemma_hex_roundtrip(n.position.x_bits as int, 8);
                    }
                }
            }
            return None;
        },
    };
    let (yv, p5) = match parse_hex(s, total, p4, 8) {
        Some(v) => v,
        None => {
            proof {
                assert forall|n: NodeT| !node_matches_at(s@, total as int, pos as int, n) by {
                    if node_matches_at(s@, total as int, pos as int, n) {
                        node_match_parts(s@, total as int, pos as int, n);
                        lemma_pow16_8();
                        lemma_hex_roundtrip(n.position.y_bits as int, 8);
                    }
                }
            }
            return None;
        },
    };
    let (npins64, p6) = match parse_hex(s, total, p5, 16) {
        Some(v) => v,
        None => {
            proof {
                assert forall|n: NodeT| !node_matches_at(s@, total as int, pos as int, n) by {
                    if node_matches_at(s@, total as int, pos as int, n) {
                        node_match_parts(s@, total as int, pos as int, n);
                        lemma_usize_fits();
                        lemma_hex_roundtrip(n.pins.len() as int, 16);
                    }
                }
            }
            return None;
        },
    };
    if npins64 > (usize::MAX as u64) {
        proof {
            assert forall|n: NodeT| !node_matches_at(s@, total as int, pos as int, n) by {
                if node_matches_at(s@, total as int, pos as int, n) {
                    node_match_parts(s@, total as int, pos as int, n);
                    lemma_usize_fits();
                    lemma_hex_roundtrip(n.pins.len() as int, 16);
                }
            }
        }
        return None;
    }
    let (pins, p7) = match parse_pins(s, total, p6, npins64 as usize) {
        Some(v) => v,
        None => {
            proof {
                assert forall|n: NodeT| !node_matches_at(s@, total as int, pos as int, n) by {
                    if node_matches_at(s@, total as int, pos as int, n) {
                        node_match_parts(s@, total as int, pos as int, n);
                        lemma_usize_fits();
                        lemma_hex_roundtrip(n.pins.len() as int, 16);
                    }
                }
            }
            return None;
        },
    };
    let (nprops64, p8) = match parse_hex(s, total, p7, 16) {
        Some(v) => v,
        None => {
            proof {
                assert forall|n: NodeT| !node_matches_at(s@, total as int, pos as int, n) by {
                    if node_matches_at(s@, total as int, pos as int, n) {
                        node_match_parts(s@, total as int, pos as int, n);
                        lemma_usize_fits();
                        lemma_hex_roundtrip(n.pins.len() as int, 16);
                        lemma_hex_roundtrip(n.properties.len() as int, 16);
                    }
                }
            }
            return None;
        },
    };
    if nprops64 > (usize::MAX as u64) {
        proof {
            assert forall|n: NodeT| !node_matches_at(s@, total as int, pos as int, n) by {
                if node_matches_at(s@, total as int, pos as int, n) {
                    node_match_parts(s@, total as int, pos as int, n);
                    lemma_usize_fits();
                    lemma_hex_roundtrip(n.pins.len() as int, 16);
                    lemma_hex_roundtrip(n.properties.len() as int, 16);
                }
            }
        }
        return None;
    }
    let (properties, p9) = match parse_props(s, total, p8, nprops64 as usize) {
        Some(v) => v,
        None => {
            proof {
                assert forall|n: NodeT| !node_matches_at(s@, total as int, pos as int, n) by {
                    if node_matches_at(s@, total as int, pos as int, n) {
                        node_match_parts(s@, total as int, pos as int, n);
                        lemma_usize_fits();
                        lemma_hex_roundtrip(n.pins.len() as int, 16);
                        lemma_hex_roundtrip(n.properties.len() as int, 16);
                    }
                }
            }
            return None;
        },
    };
    let idbits = #[verifier::truncate] (idv as u32);
    let xbits = #[verifier::truncate] (xv as u32);
    let ybits = #[verifier::truncate] (yv as u32);
    let node = Node {
        id: NodeId(idbits),
        kind,
        graph,
        position: NodePosition { x_bits: xbits, y_bits: ybits },
        pins,
        properties,
    };
    proof {
        assert forall|n: NodeT|
            #[trigger] node_matches_at(s@, total as int, pos as int, n) implies (node_t(node)
            == n && p9 == pos + spec_ser_node(n).len()) by {
            node_match_parts(s@, total as int, pos as int, n);
            lemma_pow16_8();
            lemma_usize_fits();
            lemma_hex_roundtrip(n.id.0 as int, 8);
            lemma_hex_roundtrip(n.position.x_bits as int, 8);
            lemma_hex_roundtrip(n.position.y_bits as int, 8);
            lemma_hex_roundtrip(n.pins.len() as int, 16);
            lemma_hex_roundtrip(n.properties.len() as int, 16);
            assert(node_t(node) =~~= n);
        }
    }
    Some((node, p9))
}

/// The serialization of a node list from its `j`-th entry on.
pub open spec fn spec_ser_nodes_from(ls: Seq<NodeT>, j: int) -> Seq<char>
    decreases ls.len() - j,
{
    if j < 0 || j >= ls.len() {
        Seq::empty()
    } else {
        spec_ser_node(ls[j]) + spec_ser_nodes_from(ls, j + 1)
    }
}

/// A node list serializes as any front part and the rest.
proof fn lemma_ser_nodes_split(ls: Seq<NodeT>, j: int)
    requires
        0 <= j <= ls.len(),
    ensures
        spec_ser_nodes(ls) =~= spec_ser_nodes(ls.subrange(0, j)) + spec_ser_nodes_from(ls, j),
    decreases ls.len() - j,
{
    if j == ls.len() {
        assert(ls.subrange(0, j) =~= ls);
    } else {
        lemma_ser_nodes_split(ls, j + 1);
        assert(ls.subrange(0, j + 1).drop_last() =~= ls.subrange(0, j));
        assert(ls.subrange(0, j + 1).last() == ls[j]);
        assert(spec_ser_nodes(ls.subrange(0, j + 1)) =~= spec_ser_nodes(ls.subrange(0, j))
            + spec_ser_node(ls[j]));
    }
}

/// That the input at `pos` is the serialization of this node list.
pub open spec fn nodes_match_at(s: Seq<char>, total: int, pos: int, ls: Seq<NodeT>) -> bool {
    &&& forall|i: int| 0 <= i < ls.len() ==> node_ok(#[trigger] ls[i])
    &&& total == s.len()
    &&& 0 <= pos
    &&& pos + spec_ser_nodes(ls).len() <= total
    &&& s.subrange(pos, pos + spec_ser_nodes(ls).len()) =~= spec_ser_nodes(ls)
}

/// At step `i` of reading a node list, the `i`-th node stands at `cur`.
proof fn nodes_step(s: Seq<char>, total: int, pos: int, ls: Seq<NodeT>, i: int, cur: int)
    requires
        nodes_match_at(s, total, pos, ls),
        total <= usize::MAX,
        0 <= i < ls.len(),
        cur == pos + spec_ser_nodes(ls.subrange(0, i)).len(),
    ensures
        node_matches_at(s, total, cur, ls[i]),
{
    lemma_ser_nodes_split(ls, i);
    assert(spec_ser_nodes_from(ls, i) =~= spec_ser_node(ls[i]) + spec_ser_nodes_from(ls, i + 1));
    lemma_split2(s, pos, spec_ser_nodes(ls.subrange(0, i)), spec_ser_nodes_from(ls, i));
    lemma_split2(s, cur, spec_ser_node(ls[i]), spec_ser_nodes_from(ls, i + 1));
}

/// Reads `count` nodes.
fn parse_nodes(s: &str, total: usize, pos: usize, count: usize) -> (r: Option<(Vec<Node>, usize)>)
    requires
        total == s@.len(),
        pos <= total,
    ensures
        (r matches Some(rv) ==> pos <= rv.1 <= total),
        forall|ls: Seq<NodeT>|
            ls.len() == count && #[trigger] nodes_match_at(s@, total as int, pos as int, ls)
                ==> (r matches Some(rv) && rv.0@.map_values(|x: Node| node_t(x)) == ls && rv.1
                == pos + spec_ser_nodes(ls).len()),
{
    let mut out: Vec<Node> = Vec::new();
    let mut cur: usize = pos;
    let mut i: usize = 0;
    while i < count
        invariant
            total == s@.len(),
            pos <= cur <= total,
            i <= count,
            out@.len() == i,
            forall|ls: Seq<NodeT>|
                ls.len() == count && #[trigger] nodes_match_at(s@, total as int, pos as int, ls)
                    ==> (out@.map_values(|x: Node| node_t(x)) =~= ls.subrange(0, i as int) && cur
                    == pos + spec_ser_nodes(ls.subrange(0, i as int)).len()),
        decreases count - i,
    {
        let (node, next) = match parse_node(s, total, cur) {
            Some(v) => v,
            None => {
                proof {
                    assert forall|ls: Seq<NodeT>|
                        !(ls.len() == count && #[trigger] nodes_match_at(
                            s@,
                            total as int,
                            pos as int,
                            ls,
                        )) by {
                        if ls.len() == count && nodes_match_at(s@, total as int, pos as int, ls) {
                            nodes_step(s@, total as int, pos as int, ls, i as int, cur as int);
                        }
                    }
                }
                return None;
            },
        };
        proof {
            assert forall|ls: Seq<NodeT>|
                ls.len() == count && #[trigger] nodes_match_at(s@, total as int, pos as int, ls)
                    implies (out@.push(node).map_values(|x: Node| node_t(x)) =~= ls.subrange(
                    0,
                    i + 1,
                ) && next == pos + spec_ser_nodes(ls.subrange(0, i + 1)).len()) by {
                nodes_step(s@, total as int, pos as int, ls, i as int, cur as int);
                assert(node_t(node) == ls[i as int]);
                assert(ls.subrange(0, i + 1).drop_last() =~= ls.subrange(0, i as int));
                assert(spec_ser_nodes(ls.subrange(0, i + 1)) =~= spec_ser_nodes(ls.subrange(
                    0,
                    i as int,
                )) + spec_ser_node(ls[i as int]));
                assert(out@.push(node).map_values(|x: Node| node_t(x)) =~= out@.map_values(
                    |x: Node| node_t(x),
                ).push(node_t(node)));
                assert(out@.push(node).map_values(|x: Node| node_t(x)) =~= ls.subrange(0, i + 1));
            }
        }
        out.push(node);
        cur = next;
        i += 1;
    }
    proof {
        assert forall|ls: Seq<NodeT>|
            ls.len() == count && #[trigger] nodes_match_at(s@, total as int, pos as int, ls)
                implies (out@.map_values(|x: Node| node_t(x)) =~= ls && cur == pos
            + spec_ser_nodes(ls).len()) by {
            assert(ls.subrange(0, count as int) =~= ls);
        }
    }
    Some((out, cur))
}

/// The serialization of a link list from its `j`-th entry on.
pub open spec fn spec_ser_links_from(ls: Seq<Link>, j: int) -> Seq<char>
    decreases ls.len() - j,
{
    if j < 0 || j >= ls.len() {
        Seq::empty()
    } else {
        spec_ser_link(ls[j]) + spec_ser_links_from(ls, j + 1)
    }
}

/// A link list serializes as any front part and the rest.
proof fn lemma_ser_links_split(ls: Seq<Link>, j: int)
    requires
        0 <= j <= ls.len(),
    ensures
        spec_ser_links(ls) =~= spec_ser_links(ls.subrange(0, j)) + spec_ser_links_from(ls, j),
    decreases ls.len() - j,
{
    if j == ls.len() {
        assert(ls.subrange(0, j) =~= ls);
    } else {
        lemma_ser_links_split(ls, j + 1);
        assert(ls.subrange(0, j + 1).drop_last() =~= ls.subrange(0, j));
        assert(ls.subrange(0, j + 1).last() == ls[j]);
        assert(spec_ser_links(ls.subrange(0, j + 1)) =~= spec_ser_links(ls.subrange(0, j))
            + spec_ser_link(ls[j]));
    }
}

/// That the input at `pos` is the serialization of this link list.
pub open spec fn links_match_at(s: Seq<char>, total: int, pos: int, ls: Seq<Link>) -> bool {
    &&& total == s.len()
    &&& 0 <= pos
    &&& pos + spec_ser_links(ls).len() <= total
    &&& s.subrange(pos, pos + spec_ser_links(ls).len()) =~= spec_ser_links(ls)
}

/// At step `i` of reading a link list, the `i`-th link stands at `cur`.
proof fn links_step(s: Seq<char>, total: int, pos: int, ls: Seq<Link>, i: int, cur: int)
    requires
        links_match_at(s, total, pos, ls),
        0 <= i < ls.len(),
        cur == pos + spec_ser_links(ls.subrange(0, i)).len(),
    ensures
        cur + 16 <= total,
        s.subrange(cur, cur + 8) =~= spec_hex(ls[i].from.0 as int, 8),
        s.subrange(cur + 8, cur + 16) =~= spec_hex(ls[i].to.0 as int, 8),
        spec_ser_links(ls.subrange(0, i + 1)).len() == spec_ser_links(ls.subrange(
            0,
            i,
        )).len() + 16,
{
    lemma_pow16_8();
    lemma_hex_roundtrip(ls[i].from.0 as int, 8);
    lemma_hex_roundtrip(ls[i].to.0 as int, 8);
    lemma_ser_links_split(ls, i);
    assert(spec_ser_links_from(ls, i) =~= spec_ser_link(ls[i]) + spec_ser_links_from(ls, i + 1));
    lemma_split2(s, pos, spec_ser_links(ls.subrange(0, i)), spec_ser_links_from(ls, i));
    lemma_split2(s, cur, spec_ser_link(ls[i]), spec_ser_links_from(ls, i + 1));
    lemma_split2(s, cur, spec_hex(ls[i].from.0 as int, 8), spec_hex(ls[i].to.0 as int, 8));
    assert(ls.subrange(0, i + 1).drop_last() =~= ls.subrange(0, i));
    assert(spec_ser_links(ls.subrange(0, i + 1)) =~= spec_ser_links(ls.subrange(0, i))
        + spec_ser_link(ls[i]));
}

/// Reads `count` links.
fn parse_links(s: &str, total: usize, pos: usize, count: usize) -> (r: Option<(Vec<Link>, usize)>)
    requires
        total == s@.len(),
        pos <= total,
    ensures
        (r matches Some(rv) ==> pos <= rv.1 <= total),
        forall|ls: Seq<Link>|
            ls.len() == count && #[trigger] links_match_at(s@, total as int, pos as int, ls)
                ==> (r matches Some(rv) && rv.0@ == ls && rv.1 == pos + spec_ser_links(ls).len()),
{
    let mut out: Vec<Link> = Vec::new();
    let mut cur: usize = pos;
    let mut i: usize = 0;
    while i < count
        invariant
            total == s@.len(),
            pos <= cur <= total,
            i <= count,
            out@.len() == i,
            forall|ls: Seq<Link>|
                ls.len() == count && #[trigger] links_match_at(s@, total as int, pos as int, ls)
                    ==> (out@ =~= ls.subrange(0, i as int) && cur == pos + spec_ser_links(
                    ls.subrange(0, i as int),
                ).len()),
        decreases count - i,
    {
        let (fromv, p1) = match parse_hex(s, total, cur, 8) {
            Some(v) => v,
            None => {
                proof {
                    assert forall|ls: Seq<Link>|
                        !(ls.len() == count && #[trigger] links_match_at(
                            s@,
                            total as int,
                            pos as int,
                            ls,
                        )) by {
                        if ls.len() == count && links_match_at(s@, total as int, pos as int, ls) {
                            links_step(s@, total as int, pos as int, ls, i as int, cur as int);
                            lemma_pow16_8();
                            lemma_hex_roundtrip(ls[i as int].from.0 as int, 8);
                        }
                    }
                }
                return None;
            },
        };
        let (tov, p2) = match parse_hex(s, total, p1, 8) {
            Some(v) => v,
            None => {
                proof {
                    assert forall|ls: Seq<Link>|
                        !(ls.len() == count && #[trigger] links_match_at(
                            s@,
                            total as int,
                            pos as int,
                            ls,
                        )) by {
                        if ls.len() == count && links_match_at(s@, total as int, pos as int, ls) {
                            links_step(s@, total as int, pos as int, ls, i as int, cur as int);
                            lemma_pow16_8();
                            lemma_hex_roundtrip(ls[i as int].to.0 as int, 8);
                        }
                    }
                }
                return None;
            },
        };
        let link = Link {
            from: PinId(#[verifier::truncate] (fromv as u32)),
            to: PinId(#[verifier::truncate] (tov as u32)),
        };
        proof {
            assert forall|ls: Seq<Link>|
                ls.len() == count && #[trigger] links_match_at(s@, total as int, pos as int, ls)
                    implies (out@.push(link) =~= ls.subrange(0, i + 1) && p2 == pos
                    + spec_ser_links(ls.subrange(0, i + 1)).len()) by {
                links_step(s@, total as int, pos as int, ls, i as int, cur as int);
                lemma_pow16_8();
                lemma_hex_roundtrip(ls[i as int].from.0 as int, 8);
                lemma_hex_roundtrip(ls[i as int].to.0 as int, 8);
                assert(link == ls[i as int]);
                assert(ls.subrange(0, i + 1).drop_last() =~= ls.subrange(0, i as int));
            }
        }
        out.push(link);
        cur = p2;
        i += 1;
    }
    proof {
        assert forall|ls: Seq<Link>|
            ls.len() == count && #[trigger] links_match_at(s@, total as int, pos as int, ls)
                implies (out@ =~= ls && cur == pos + spec_ser_links(ls).len()) by {
            assert(ls.subrange(0, count as int) =~= ls);
        }
    }
    Some((out, cur))
}

/// That the input at `pos` is the serialization of this variable.
pub open spec fn var_matches_at(s: Seq<char>, total: int, pos: int, v: VarT) -> bool {
    &&& var_ok(v)
    &&& total == s.len()
    &&& 0 <= pos
    &&& pos + spec_ser_var(v).len() <= total
    &&& s.subrange(pos, pos + spec_ser_var(v).len()) =~= spec_ser_var(v)
}

/// Where each part of a matching variable stands.
proof fn var_match_parts(s: Seq<char>, total: int, pos: int, v: VarT)
    requires
        var_matches_at(s, total, pos, v),
        total <= usize::MAX,
    ensures
        ({
            let q1 = pos + 16 + v.name.len();
            &&& q1 + 1 <= total
            &&& s.subrange(pos, q1) =~= spec_ser_str(v.name)
            &&& s[q1] == dt_char(v.data_type)
            &&& (v.default_value matches Some(d) ==> q1 + 2 <= total && s[q1 + 1] == 'v'
                && value_matches_at(s, total, q1 + 2, d) && pos + spec_ser_var(v).len() == q1 + 2
                + spec_ser_value(d).len())
            &&& (v.default_value is None ==> s[q1 + 1] == 'n' && pos + spec_ser_var(v).len() == q1
                + 2)
        }),
{
    lemma_pow16_exact();
    assert(v.name.len() <= total);
    lemma_hex_roundtrip(v.name.len() as int, 16);
    let a1 = spec_ser_str(v.name);
    let a2 = seq![dt_char(v.data_type)];
    let q1 = pos + 16 + v.name.len();
    match v.default_value {
        Some(d) => {
            let a3 = seq!['v'] + spec_ser_value(d);
            assert(spec_ser_var(v) =~= a1 + (a2 + a3));
            lemma_split2(s, pos, a1, a2 + a3);
            lemma_split2(s, q1, a2, a3);
            lemma_split2(s, q1 + 1, seq!['v'], spec_ser_value(d));
            assert(s.subrange(q1, q1 + 1)[0] == s[q1]);
            assert(s.subrange(q1 + 1, q1 + 2)[0] == s[q1 + 1]);
        },
        None => {
            let a3 = seq!['n'];
            assert(spec_ser_var(v) =~= a1 + (a2 + a3));
            lemma_split2(s, pos, a1, a2 + a3);
            lemma_split2(s, q1, a2, a3);
            assert(s.subrange(q1, q1 + 1)[0] == s[q1]);
            assert(s.subrange(q1 + 1, q1 + 2)[0] == s[q1 + 1]);
        },
    }
}

/// Reads one variable definition.
fn parse_var(s: &str, total: usize, pos: usize) -> (r: Option<(VariableDef, usize)>)
    requires
        total == s@.len(),
        pos <= total,
    ensures
        (r matches Some(rv) ==> pos <= rv.1 <= total),
        forall|v: VarT|
            #[trigger] var_matches_at(s@, total as int, pos as int, v) ==> (r matches Some(rv)
                && var_t(rv.0) == v && rv.1 == pos + spec_ser_var(v).len()),
{
    let (name, p1) = match parse_str(s, total, pos) {
        Some(v) => v,
        None => {
            proof {
                assert forall|v: VarT| !var_matches_at(s@, total as int, pos as int, v) by {
                    if var_matches_at(s@, total as int, pos as int, v) {
                        var_match_parts(s@, total as int, pos as int, v);
                    }
                }
            }
            return None;
        },
    };
    let (data_type, p2) = match parse_dt(s, total, p1) {
        Some(v) => v,
        None => {
            proof {
                assert forall|v: VarT| !var_matches_at(s@, total as int, pos as int, v) by {
                    if var_matches_at(s@, total as int, pos as int, v) {
                        var_match_parts(s@, total as int, pos as int, v);
                    }
                }
            }
            return None;
        },
    };
    if p2 >= total {
        proof {
            assert forall|v: VarT| !var_matches_at(s@, total as int, pos as int, v) by {
                if var_matches_at(s@, total as int, pos as int, v) {
                    var_match_parts(s@, total as int, pos as int, v);
                }
            }
        }
        return None;
    }
    let tag = s.get_char(p2);
    if tag == 'n' {
        let var = VariableDef { name, data_type, default_value: None };
        proof {
            assert forall|v: VarT|
                #[trigger] var_matches_at(s@, total as int, pos as int, v) implies (var_t(var)
                == v && p2 + 1 == pos + spec_ser_var(v).len()) by {
                var_match_parts(s@, total as int, pos as int, v);
            }
        }
        Some((var, p2 + 1))
    } else if tag == 'v' {
        let (value, p3) = match parse_value(s, total, p2 + 1) {
            Some(v) => v,
            None => {
                proof {
                    assert forall|v: VarT| !var_matches_at(s@, total as int, pos as int, v) by {
                        if var_matches_at(s@, total as int, pos as int, v) {
                            var_match_parts(s@, total as int, pos as int, v);
                        }
                    }
                }
                return None;
            },
        };
        let var = VariableDef { name, data_type, default_value: Some(value) };
        proof {
            assert forall|v: VarT|
                #[trigger] var_matches_at(s@, total as int, pos as int, v) implies (var_t(var)
                == v && p3 == pos + spec_ser_var(v).len()) by {
                var_match_parts(s@, total as int, pos as int, v);
            }
        }
        Some((var, p3))
    } else {
        proof {
            assert forall|v: VarT| !var_matches_at(s@, total as int, pos as int, v) by {
                if var_matches_at(s@, total as int, pos as int, v) {
                    var_match_parts(s@, total as int, pos as int, v);
                }
            }
        }
        None
    }
}

/// The serialization of a variable list from its `j`-th entry on.
pub open spec fn spec_ser_vars_from(ls: Seq<VarT>, j: int) -> Seq<char>
    decreases ls.len() - j,
{
    if j < 0 || j >= ls.len() {
        Seq::empty()
    } else {
        spec_ser_var(ls[j]) + spec_ser_vars_from(ls, j + 1)
    }
}

/// A variable list serializes as any front part and the rest.
proof fn lemma_ser_vars_split(ls: Seq<VarT>, j: int)
    requires
        0 <= j <= ls.len(),
    ensures
        spec_ser_vars(ls) =~= spec_ser_vars(ls.subrange(0, j)) + spec_ser_vars_from(ls, j),
    decreases ls.len() - j,
{
    if j == ls.len() {
        assert(ls.subrange(0, j) =~= ls);
    } else {
        lemma_ser_vars_split(ls, j + 1);
        assert(ls.subrange(0, j + 1).drop_last() =~= ls.subrange(0, j));
        assert(ls.subrange(0, j + 1).last() == ls[j]);
        assert(spec_ser_vars(ls.subrange(0, j + 1)) =~= spec_ser_vars(ls.subrange(0, j))
            + spec_ser_var(ls[j]));
    }
}

/// That the input at `pos` is the serialization of this variable list.
pub open spec fn vars_match_at(s: Seq<char>, total: int, pos: int, ls: Seq<VarT>) -> bool {
    &&& forall|i: int| 0 <= i < ls.len() ==> var_ok(#[trigger] ls[i])
    &&& total == s.len()
    &&& 0 <= pos
    &&& pos + spec_ser_vars(ls).len() <= total
    &&& s.subrange(pos, pos + spec_ser_vars(ls).len()) =~= spec_ser_vars(ls)
}

/// At step `i` of reading a variable list, the `i`-th one stands at
/// `cur`.
proof fn vars_step(s: Seq<char>, total: int, pos: int, ls: Seq<VarT>, i: int, cur: int)
    requires
        vars_match_at(s, total, pos, ls),
        total <= usize::MAX,
        0 <= i < ls.len(),
        cur == pos + spec_ser_vars(ls.subrange(0, i)).len(),
    ensures
        var_matches_at(s, total, cur, ls[i]),
{
    lemma_ser_vars_split(ls, i);
    assert(spec_ser_vars_from(ls, i) =~= spec_ser_var(ls[i]) + spec_ser_vars_from(ls, i + 1));
    lemma_split2(s, pos, spec_ser_vars(ls.subrange(0, i)), spec_ser_vars_from(ls, i));
    lemma_split2(s, cur, spec_ser_var(ls[i]), spec_ser_vars_from(ls, i + 1));
}

/// Reads `count` variable definitions.
fn parse_vars(s: &str, total: usize, pos: usize, count: usize) -> (r: Option<
    (Vec<VariableDef>, usize),
>)
    requires
        total == s@.len(),
        pos <= total,
    ensures
        (r matches Some(rv) ==> pos <= rv.1 <= total),
        forall|ls: Seq<VarT>|
            ls.len() == count && #[trigger] vars_match_at(s@, total as int, pos as int, ls) ==> (
            r matches Some(rv) && rv.0@.map_values(|x: VariableDef| var_t(x)) == ls && rv.1 == pos
                + spec_ser_vars(ls).len()),
{
    let mut out: Vec<VariableDef> = Vec::new();
    let mut cur: usize = pos;
    let mut i: usize = 0;
    while i < count
        invariant
            total == s@.len(),
            pos <= cur <= total,
            i <= count,
            out@.len() == i,
            forall|ls: Seq<VarT>|
                ls.len() == count && #[trigger] vars_match_at(s@, total as int, pos as int, ls)
                    ==> (out@.map_values(|x: VariableDef| var_t(x)) =~= ls.subrange(0, i as int)
                    && cur == pos + spec_ser_vars(ls.subrange(0, i as int)).len()),
        decreases count - i,
    {
        let (var, next) = match parse_var(s, total, cur) {
            Some(v) => v,
            None => {
                proof {
                    assert forall|ls: Seq<VarT>|
                        !(ls.len() == count && #[trigger] vars_match_at(
                            s@,
                            total as int,
                            pos as int,
                            ls,
                        )) by {
                        if ls.len() == count && vars_match_at(s@, total as int, pos as int, ls) {
                            vars_step(s@, total as int, pos as int, ls, i as int, cur as int);
                        }
                    }
                }
                return None;
            },
        };
        proof {
            assert forall|ls: Seq<VarT>|
                ls.len() == count && #[trigger] vars_match_at(s@, total as int, pos as int, ls)
                    implies (out@.push(var).map_values(|x: VariableDef| var_t(x)) =~= ls.subrange(
                    0,
                    i + 1,
                ) && next == pos + spec_ser_vars(ls.subrange(0, i + 1)).len()) by {
                vars_step(s@, total as int, pos as int, ls, i as int, cur as int);
                assert(var_t(var) == ls[i as int]);
                assert(ls.subrange(0, i + 1).drop_last() =~= ls.subrange(0, i as int));
                assert(spec_ser_vars(ls.subrange(0, i + 1)) =~= spec_ser_vars(ls.subrange(
                    0,
                    i as int,
                )) + spec_ser_var(ls[i as int]));
                assert(out@.push(var).map_values(|x: VariableDef| var_t(x)) =~= out@.map_values(
                    |x: VariableDef| var_t(x),
                ).push(var_t(var)));
                assert(out@.push(var).map_values(|x: VariableDef| var_t(x)) =~= ls.subrange(
                    0,
                    i + 1,
                ));
            }
        }
        out.push(var);
        cur = next;
        i += 1;
    }
    proof {
        assert forall|ls: Seq<VarT>|
            ls.len() == count && #[trigger] vars_match_at(s@, total as int, pos as int, ls)
                implies (out@.map_values(|x: VariableDef| var_t(x)) =~= ls && cur == pos
            + spec_ser_vars(ls).len()) by {
            assert(ls.subrange(0, count as int) =~= ls);
        }
    }
    Some((out, cur))
}

/// One partition's serialization.
pub open spec fn spec_ser_graphdef(e: (Seq<char>, GraphKind)) -> Seq<char> {
    spec_ser_str(e.0) + seq![graphkind_char(e.1)]
}

/// That the input at `pos` is the serialization of this partition.
pub open spec fn graphdef_matches_at(
    s: Seq<char>,
    total: int,
    pos: int,
    e: (Seq<char>, GraphKind),
) -> bool {
    &&& str_ok(e.0)
    &&& total == s.len()
    &&& 0 <= pos
    &&& pos + spec_ser_graphdef(e).len() <= total
    &&& s.subrange(pos, pos + spec_ser_graphdef(e).len()) =~= spec_ser_graphdef(e)
}

/// Where each part of a matching partition stands.
proof fn graphdef_match_parts(s: Seq<char>, total: int, pos: int, e: (Seq<char>, GraphKind))
    requires
        graphdef_matches_at(s, total, pos, e),
        total <= usize::MAX,
    ensures
        pos + 16 + e.0.len() < total,
        s.subrange(pos, pos + 16 + e.0.len()) =~= spec_ser_str(e.0),
        s[pos + 16 + e.0.len()] == graphkind_char(e.1),
        spec_ser_graphdef(e).len() == 16 + e.0.len() + 1,
{
    lemma_pow16_exact();
    assert(e.0.len() <= total);
    lemma_hex_roundtrip(e.0.len() as int, 16);
    lemma_split2(s, pos, spec_ser_str(e.0), seq![graphkind_char(e.1)]);
    assert(s.subrange(pos + 16 + e.0.len(), pos + 16 + e.0.len() + 1)[0] == s[pos + 16
        + e.0.len()]);
}

/// Reads one partition entry.
fn parse_graphdef(s: &str, total: usize, pos: usize) -> (r: Option<(GraphDef, usize)>)
    requires
        total == s@.len(),
        pos <= total,
    ensures
        (r matches Some(rv) ==> pos <= rv.1 <= total),
        forall|e: (Seq<char>, GraphKind)|
            #[trigger] graphdef_matches_at(s@, total as int, pos as int, e) ==> (r matches Some(
                rv,
            ) && rv.0.name@ == e.0 && rv.0.kind == e.1 && rv.1 == pos + spec_ser_graphdef(
                e,
            ).len()),
{
    let (name, p1) = match parse_str(s, total, pos) {
        Some(v) => v,
        None => {
            proof {
                assert forall|e: (Seq<char>, GraphKind)|
                    !graphdef_matches_at(s@, total as int, pos as int, e) by {
                    if graphdef_matches_at(s@, total as int, pos as int, e) {
                        graphdef_match_parts(s@, total as int, pos as int, e);
                    }
                }
            }
            return None;
        },
    };
    let (kind, p2) = match parse_graphkind(s, total, p1) {
        Some(v) => v,
        None => {
            proof {
                assert forall|e: (Seq<char>, GraphKind)|
                    !graphdef_matches_at(s@, total as int, pos as int, e) by {
                    if graphdef_matches_at(s@, total as int, pos as int, e) {
                        graphdef_match_parts(s@, total as int, pos as int, e);
                    }
                }
            }
            return None;
        },
    };
    proof {
        assert forall|e: (Seq<char>, GraphKind)|
            #[trigger] graphdef_matches_at(s@, total as int, pos as int, e) implies (name@ == e.0
            && kind == e.1 && p2 == pos + spec_ser_graphdef(e).len()) by {
            graphdef_match_parts(s@, total as int, pos as int, e);
        }
    }
    Some((GraphDef { name, kind }, p2))
}

/// The serialization of a partition list from its `j`-th entry on.
pub open spec fn spec_ser_graphdefs_from(ls: Seq<(Seq<char>, GraphKind)>, j: int) -> Seq<char>
    decreases ls.len() - j,
{
    if j < 0 || j >= ls.len() {
        Seq::empty()
    } else {
        spec_ser_graphdef(ls[j]) + spec_ser_graphdefs_from(ls, j + 1)
    }
}

/// A partition list serializes as any front part and the rest.
proof fn lemma_ser_graphdefs_split(ls: Seq<(Seq<char>, GraphKind)>, j: int)
    requires
        0 <= j <= ls.len(),
    ensures
        spec_ser_graphdefs(ls) =~= spec_ser_graphdefs(ls.subrange(0, j))
            + spec_ser_graphdefs_from(ls, j),
    decreases ls.len() - j,
{
    if j == ls.len() {
        assert(ls.subrange(0, j) =~= ls);
    } else {
        lemma_ser_graphdefs_split(ls, j + 1);
        assert(ls.subrange(0, j + 1).drop_last() =~= ls.subrange(0, j));
        assert(ls.subrange(0, j + 1).last() == ls[j]);
        assert(spec_ser_graphdefs(ls.subrange(0, j + 1)) =~= spec_ser_graphdefs(ls.subrange(
            0,
            j,
        )) + spec_ser_graphdef(ls[j]));
    }
}

/// That the input at `pos` is the serialization of this partition list.
pub open spec fn graphdefs_match_at(
    s: Seq<char>,
    total: int,
    pos: int,
    ls: Seq<(Seq<char>, GraphKind)>,
) -> bool {
    &&& forall|i: int| 0 <= i < ls.len() ==> str_ok((#[trigger] ls[i]).0)
    &&& total == s.len()
    &&& 0 <= pos
    &&& pos + spec_ser_graphdefs(ls).len() <= total
    &&& s.subrange(pos, pos + spec_ser_graphdefs(ls).len()) =~= spec_ser_graphdefs(ls)
}

/// At step `i` of reading a partition list, the `i`-th entry stands at
/// `cur`.
proof fn graphdefs_step(
    s: Seq<char>,
    total: int,
    pos: int,
    ls: Seq<(Seq<char>, GraphKind)>,
    i: int,
    cur: int,
)
    requires
        graphdefs_match_at(s, total, pos, ls),
        total <= usize::MAX,
        0 <= i < ls.len(),
        cur == pos + spec_ser_graphdefs(ls.subrange(0, i)).len(),
    ensures
        graphdef_matches_at(s, total, cur, ls[i]),
{
    lemma_ser_graphdefs_split(ls, i);
    assert(spec_ser_graphdefs_from(ls, i) =~= spec_ser_graphdef(ls[i]) + spec_ser_graphdefs_from(
        ls,
        i + 1,
    ));
    lemma_split2(s, pos, spec_ser_graphdefs(ls.subrange(0, i)), spec_ser_graphdefs_from(ls, i));
    lemma_split2(s, cur, spec_ser_graphdef(ls[i]), spec_ser_graphdefs_from(ls, i + 1));
}

/// Reads `count` partition entries.
fn parse_graphdefs(s: &str, total: usize, pos: usize, count: usize) -> (r: Option<
    (Vec<GraphDef>, usize),
>)
    requires
        total == s@.len(),
        pos <= total,
    ensures
        (r matches Some(rv) ==> pos <= rv.1 <= total),
        forall|ls: Seq<(Seq<char>, GraphKind)>|
            ls.len() == count && #[trigger] graphdefs_match_at(s@, total as int, pos as int, ls)
                ==> (r matches Some(rv) && rv.0@.map_values(
                |x: GraphDef| (x.name@, x.kind),
            ) == ls && rv.1 == pos + spec_ser_graphdefs(ls).len()),
{
    let mut out: Vec<GraphDef> = Vec::new();
    let mut cur: usize = pos;
    let mut i: usize = 0;
    while i < count
        invariant
            total == s@.len(),
            pos <= cur <= total,
            i <= count,
            out@.len() == i,
            forall|ls: Seq<(Seq<char>, GraphKind)>|
                ls.len() == count && #[trigger] graphdefs_match_at(
                    s@,
                    total as int,
                    pos as int,
                    ls,
                ) ==> (out@.map_values(|x: GraphDef| (x.name@, x.kind)) =~= ls.subrange(
                    0,
                    i as int,
                ) && cur == pos + spec_ser_graphdefs(ls.subrange(0, i as int)).len()),
        decreases count - i,
    {
        let (entry, next) = match parse_graphdef(s, total, cur) {
            Some(v) => v,
            None => {
                proof {
                    assert forall|ls: Seq<(Seq<char>, GraphKind)>|
                        !(ls.len() == count && #[trigger] graphdefs_match_at(
                            s@,
                            total as int,
                            pos as int,
                            ls,
                        )) by {
                        if ls.len() == count && graphdefs_match_at(
                            s@,
                            total as int,
                            pos as int,
                            ls,
                        ) {
                            graphdefs_step(s@, total as int, pos as int, ls, i as int, cur as int);
                        }
                    }
                }
                return None;
            },
        };
        proof {
            assert forall|ls: Seq<(Seq<char>, GraphKind)>|
                ls.len() == count && #[trigger] graphdefs_match_at(
                    s@,
                    total as int,
                    pos as int,
                    ls,
                ) implies (out@.push(entry).map_values(|x: GraphDef| (x.name@, x.kind))
                =~= ls.subrange(0, i + 1) && next == pos + spec_ser_graphdefs(ls.subrange(
                0,
                i + 1,
            )).len()) by {
                graphdefs_step(s@, total as int, pos as int, ls, i as int, cur as int);
                assert((entry.name@, entry.kind) == ls[i as int]);
                assert(ls.subrange(0, i + 1).drop_last() =~= ls.subrange(0, i as int));
                assert(spec_ser_graphdefs(ls.subrange(0, i + 1)) =~= spec_ser_graphdefs(
                    ls.subrange(0, i as int),
                ) + spec_ser_graphdef(ls[i as int]));
                assert(out@.push(entry).map_values(|x: GraphDef| (x.name@, x.kind))
                    =~= out@.map_values(|x: GraphDef| (x.name@, x.kind)).push(
                    (entry.name@, entry.kind),
                ));
                assert(out@.push(entry).map_values(|x: GraphDef| (x.name@, x.kind))
                    =~= ls.subrange(0, i + 1));
            }
        }
        out.push(entry);
        cur = next;
        i += 1;
    }
    proof {
        assert forall|ls: Seq<(Seq<char>, GraphKind)>|
            ls.len() == count && #[trigger] graphdefs_match_at(s@, total as int, pos as int, ls)
                implies (out@.map_values(|x: GraphDef| (x.name@, x.kind)) =~= ls && cur == pos
            + spec_ser_graphdefs(ls).len()) by {
            assert(ls.subrange(0, count as int) =~= ls);
        }
    }
    Some((out, cur))
}

/// Where each section of a whole serialized graph stands.
#[verifier::rlimit(100)]
proof fn graph_match_parts(s: Seq<char>, g: GraphT)
    requires
        graph_fits(g),
        s =~= spec_ser_graph(g),
        s.len() <= usize::MAX,
    ensures
        ({
            let total = s.len() as int;
            let q1 = 8int;
            let q2 = q1 + 16 + g.id.len();
            let q3 = q2 + 16;
            let q4 = q3 + spec_ser_graphdefs(g.graphs).len();
            let q5 = q4 + 16;
            let q6 = q5 + spec_ser_nodes(g.nodes).len();
            let q7 = q6 + 16;
            let q8 = q7 + spec_ser_links(g.links).len();
            let q9 = q8 + 16;
            let q10 = q9 + spec_ser_vars(g.variables).len();
            &&& q10 + 16 == total
            &&& s.subrange(0, 8) =~= spec_hex(spec_format_version(), 8)
            &&& s.subrange(q1, q2) =~= spec_ser_str(g.id)
            &&& s.subrange(q2, q3) =~= spec_hex(g.graphs.len() as int, 16)
            &&& graphdefs_match_at(s, total, q3, g.graphs)
            &&& s.subrange(q4, q5) =~= spec_hex(g.nodes.len() as int, 16)
            &&& nodes_match_at(s, total, q5, g.nodes)
            &&& s.subrange(q6, q7) =~= spec_hex(g.links.len() as int, 16)
            &&& links_match_at(s, total, q7, g.links)
            &&& s.subrange(q8, q9) =~= spec_hex(g.variables.len() as int, 16)
            &&& vars_match_at(s, total, q9, g.variables)
            &&& s.subrange(q10, q10 + 8) =~= spec_hex(g.next_node_id as int, 8)
            &&& s.subrange(q10 + 8, q10 + 16) =~= spec_hex(g.next_pin_id as int, 8)
        }),
{
    lemma_pow16_8();
    lemma_pow16_exact();
    lemma_hex_roundtrip(spec_format_version(), 8);
    assert(g.id.len() <= usize::MAX);
    lemma_hex_roundtrip(g.id.len() as int, 16);
    lemma_hex_roundtrip(g.graphs.len() as int, 16);
    lemma_hex_roundtrip(g.nodes.len() as int, 16);
    lemma_hex_roundtrip(g.links.len() as int, 16);
    lemma_hex_roundtrip(g.variables.len() as int, 16);
    lemma_hex_roundtrip(g.next_node_id as int, 8);
    lemma_hex_roundtrip(g.next_pin_id as int, 8);
    let a1 = spec_hex(spec_format_version(), 8);
    let a2 = spec_ser_str(g.id);
    let a3 = spec_hex(g.graphs.len() as int, 16);
    let a4 = spec_ser_graphdefs(g.graphs);
    let a5 = spec_hex(g.nodes.len() as int, 16);
    let a6 = spec_ser_nodes(g.nodes);
    let a7 = spec_hex(g.links.len() as int, 16);
    let a8 = spec_ser_links(g.links);
    let a9 = spec_hex(g.variables.len() as int, 16);
    let a10 = spec_ser_vars(g.variables);
    let a11 = spec_hex(g.next_node_id as int, 8);
    let a12 = spec_hex(g.next_pin_id as int, 8);
    let r12: Seq<char> = a12;
    let r11 = a11 + r12;
    let r10 = a10 + r11;
    let r9 = a9 + r10;
    let r8 = a8 + r9;
    let r7 = a7 + r8;
    let r6 = a6 + r7;
    let r5 = a5 + r6;
    let r4 = a4 + r5;
    let r3 = a3 + r4;
    let r2 = a2 + r3;
    assert(s =~= a1 + r2);
    lemma_split2(s, 0, a1, r2);
    let q1 = 8int;
    lemma_split2(s, q1, a2, r3);
    let q2 = q1 + a2.len();
    lemma_split2(s, q2, a3, r4);
    let q3 = q2 + 16;
    lemma_split2(s, q3, a4, r5);
    let q4 = q3 + a4.len();
    lemma_split2(s, q4, a5, r6);
    let q5 = q4 + 16;
    lemma_split2(s, q5, a6, r7);
    let q6 = q5 + a6.len();
    lemma_split2(s, q6, a7, r8);
    let q7 = q6 + 16;
    lemma_split2(s, q7, a8, r9);
    let q8 = q7 + a8.len();
    lemma_split2(s, q8, a9, r10);
    let q9 = q8 + 16;
    lemma_split2(s, q9, a10, r11);
    let q10 = q9 + a10.len();
    lemma_split2(s, q10, a11, r12);
}

/// Reads a whole serialized graph back. Parsing the serialization of
/// any graph yields a graph with the same ghost image — and so, by the
/// compiler's contract, one that compiles to the same result.
#[verifier::rlimit(100)]
pub fn deserialize(s: &str) -> (r: Option<BlueprintGraph>)
    ensures
        forall|g1: BlueprintGraph|
            graph_fits(#[trigger] graph_t(g1)) && s@ =~= spec_ser_graph(graph_t(g1)) ==> (
            r matches Some(g2) && graph_t(g2) == graph_t(g1)),
{
    let total = s.unicode_len();
    let (version, p1) = match parse_hex(s, total, 0, 8) {
        Some(v) => v,
        None => {
            proof {
                assert forall|g1: BlueprintGraph|
                    !(graph_fits(#[trigger] graph_t(g1)) && s@ =~= spec_ser_graph(graph_t(
                        g1,
                    ))) by {
                    if graph_fits(graph_t(g1)) && s@ =~= spec_ser_graph(graph_t(g1)) {
                        graph_match_parts(s@, graph_t(g1));
                        lemma_usize_fits();
                        lemma_pow16_8();
                        lemma_pow16_exact();
                        lemma_hex_roundtrip(spec_format_version(), 8);
                        lemma_hex_roundtrip(graph_t(g1).graphs.len() as int, 16);
                        lemma_hex_roundtrip(graph_t(g1).nodes.len() as int, 16);
                        lemma_hex_roundtrip(graph_t(g1).links.len() as int, 16);
                        lemma_hex_roundtrip(graph_t(g1).variables.len() as int, 16);
                        lemma_hex_roundtrip(graph_t(g1).next_node_id as int, 8);
                        lemma_hex_roundtrip(graph_t(g1).next_pin_id as int, 8);
                    }
                }
            }
            return None;
        },
    };
    if version != 1 {
        proof {
            assert forall|g1: BlueprintGraph|
                    !(graph_fits(#[trigger] graph_t(g1)) && s@ =~= spec_ser_graph(graph_t(
                        g1,
                    ))) by {
                    if graph_fits(graph_t(g1)) && s@ =~= spec_ser_graph(graph_t(g1)) {
                        graph_match_parts(s@, graph_t(g1));
                        lemma_usize_fits();
                        lemma_pow16_8();
                        lemma_pow16_exact();
                        lemma_hex_roundtrip(spec_format_version(), 8);
                        lemma_hex_roundtrip(graph_t(g1).graphs.len() as int, 16);
                        lemma_hex_roundtrip(graph_t(g1).nodes.len() as int, 16);
                        lemma_hex_roundtrip(graph_t(g1).links.len() as int, 16);
                        lemma_hex_roundtrip(graph_t(g1).variables.len() as int, 16);
                        lemma_hex_roundtrip(graph_t(g1).next_node_id as int, 8);
                        lemma_hex_roundtrip(graph_t(g1).next_pin_id as int, 8);
                    }
                }
        }
        return None;
    }
    let (id, p2) = match parse_str(s, total, p1) {
        Some(v) => v,
        None => {
            proof {
                assert forall|g1: BlueprintGraph|
                    !(graph_fits(#[trigger] graph_t(g1)) && s@ =~= spec_ser_graph(graph_t(
                        g1,
                    ))) by {
                    if graph_fits(graph_t(g1)) && s@ =~= spec_ser_graph(graph_t(g1)) {
                        graph_match_parts(s@, graph_t(g1));
                        lemma_usize_fits();
                        lemma_pow16_8();
                        lemma_pow16_exact();
                        lemma_hex_roundtrip(spec_format_version(), 8);
                        lemma_hex_roundtrip(graph_t(g1).graphs.len() as int, 16);
                        lemma_hex_roundtrip(graph_t(g1).nodes.len() as int, 16);
                        lemma_hex_roundtrip(graph_t(g1).links.len() as int, 16);
                        lemma_hex_roundtrip(graph_t(g1).variables.len() as int, 16);
                        lemma_hex_roundtrip(graph_t(g1).next_node_id as int, 8);
                        lemma_hex_roundtrip(graph_t(g1).next_pin_id as int, 8);
                    }
                }
            }
            return None;
        },
    };
    let (ngd, p3) = match parse_hex(s, total, p2, 16) {
        Some(v) => v,
        None => {
            proof {
                assert forall|g1: BlueprintGraph|
                    !(graph_fits(#[trigger] graph_t(g1)) && s@ =~= spec_ser_graph(graph_t(
                        g1,
                    ))) by {
                    if graph_fits(graph_t(g1)) && s@ =~= spec_ser_graph(graph_t(g1)) {
                        graph_match_parts(s@, graph_t(g1));
                        lemma_usize_fits();
                        lemma_pow16_8();
                        lemma_pow16_exact();
                        lemma_hex_roundtrip(spec_format_version(), 8);
                        lemma_hex_roundtrip(graph_t(g1).graphs.len() as int, 16);
                        lemma_hex_roundtrip(graph_t(g1).nodes.len() as int, 16);
                        lemma_hex_roundtrip(graph_t(g1).links.len() as int, 16);
                        lemma_hex_roundtrip(graph_t(g1).variables.len() as int, 16);
                        lemma_hex_roundtrip(graph_t(g1).next_node_id as int, 8);
                        lemma_hex_roundtrip(graph_t(g1).next_pin_id as int, 8);
                    }
                }
            }
            return None;
        },
    };
    if ngd > (usize::MAX as u64) {
        proof {
            assert forall|g1: BlueprintGraph|
                    !(graph_fits(#[trigger] graph_t(g1)) && s@ =~= spec_ser_graph(graph_t(
                        g1,
                    ))) by {
                    if graph_fits(graph_t(g1)) && s@ =~= spec_ser_graph(graph_t(g1)) {
                        graph_match_parts(s@, graph_t(g1));
                        lemma_usize_fits();
                        lemma_pow16_8();
                        lemma_pow16_exact();
                        lemma_hex_roundtrip(spec_format_version(), 8);
                        lemma_hex_roundtrip(graph_t(g1).graphs.len() as int, 16);
                        lemma_hex_roundtrip(graph_t(g1).nodes.len() as int, 16);
                        lemma_hex_roundtrip(graph_t(g1).links.len() as int, 16);
                        lemma_hex_roundtrip(graph_t(g1).variables.len() as int, 16);
                        lemma_hex_roundtrip(graph_t(g1).next_node_id as int, 8);
                        lemma_hex_roundtrip(graph_t(g1).next_pin_id as int, 8);
                    }
                }
        }
        return None;
    }
    let (graphs, p4) = match parse_graphdefs(s, total, p3, ngd as usize) {
        Some(v) => v,
        None => {
            proof {
                assert forall|g1: BlueprintGraph|
                    !(graph_fits(#[trigger] graph_t(g1)) && s@ =~= spec_ser_graph(graph_t(
                        g1,
                    ))) by {
                    if graph_fits(graph_t(g1)) && s@ =~= spec_ser_graph(graph_t(g1)) {
                        graph_match_parts(s@, graph_t(g1));
                        lemma_usize_fits();
                        lemma_pow16_8();
                        lemma_pow16_exact();
                        lemma_hex_roundtrip(spec_format_version(), 8);
                        lemma_hex_roundtrip(graph_t(g1).graphs.len() as int, 16);
                        lemma_hex_roundtrip(graph_t(g1).nodes.len() as int, 16);
                        lemma_hex_roundtrip(graph_t(g1).links.len() as int, 16);
                        lemma_hex_roundtrip(graph_t(g1).variables.len() as int, 16);
                        lemma_hex_roundtrip(graph_t(g1).next_node_id as int, 8);
                        lemma_hex_roundtrip(graph_t(g1).next_pin_id as int, 8);
                    }
                }
            }
            return None;
        },
    };
    let (nnd, p5) = match parse_hex(s, total, p4, 16) {
        Some(v) => v,
        None => {
            proof {
                assert forall|g1: BlueprintGraph|
                    !(graph_fits(#[trigger] graph_t(g1)) && s@ =~= spec_ser_graph(graph_t(
                        g1,
                    ))) by {
                    if graph_fits(graph_t(g1)) && s@ =~= spec_ser_graph(graph_t(g1)) {
                        graph_match_parts(s@, graph_t(g1));
                        lemma_usize_fits();
                        lemma_pow16_8();
                        lemma_pow16_exact();
                        lemma_hex_roundtrip(spec_format_version(), 8);
                        lemma_hex_roundtrip(graph_t(g1).graphs.len() as int, 16);
                        lemma_hex_roundtrip(graph_t(g1).nodes.len() as int, 16);
                        lemma_hex_roundtrip(graph_t(g1).links.len() as int, 16);
                        lemma_hex_roundtrip(graph_t(g1).variables.len() as int, 16);
                        lemma_hex_roundtrip(graph_t(g1).next_node_id as int, 8);
                        lemma_hex_roundtrip(graph_t(g1).next_pin_id as int, 8);
                    }
                }
            }
            return None;
        },
    };
    if nnd > (usize::MAX as u64) {
        proof {
            assert forall|g1: BlueprintGraph|
                    !(graph_fits(#[trigger] graph_t(g1)) && s@ =~= spec_ser_graph(graph_t(
                        g1,
                    ))) by {
                    if graph_fits(graph_t(g1)) && s@ =~= spec_ser_graph(graph_t(g1)) {
                        graph_match_parts(s@, graph_t(g1));
                        lemma_usize_fits();
                        lemma_pow16_8();
                        lemma_pow16_exact();
                        lemma_hex_roundtrip(spec_format_version(), 8);
                        lemma_hex_roundtrip(graph_t(g1).graphs.len() as int, 16);
                        lemma_hex_roundtrip(graph_t(g1).nodes.len() as int, 16);
                        lemma_hex_roundtrip(graph_t(g1).links.len() as int, 16);
                        lemma_hex_roundtrip(graph_t(g1).variables.len() as int, 16);
                        lemma_hex_roundtrip(graph_t(g1).next_node_id as int, 8);
                        lemma_hex_roundtrip(graph_t(g1).next_pin_id as int, 8);
                    }
                }
        }
        return None;
    }
    let (nodes, p6) = match parse_nodes(s, total, p5, nnd as usize) {
        Some(v) => v,
        None => {
            proof {
                assert forall|g1: BlueprintGraph|
                    !(graph_fits(#[trigger] graph_t(g1)) && s@ =~= spec_ser_graph(graph_t(
                        g1,
                    ))) by {
                    if graph_fits(graph_t(g1)) && s@ =~= spec_ser_graph(graph_t(g1)) {
                        graph_match_parts(s@, graph_t(g1));
                        lemma_usize_fits();
                        lemma_pow16_8();
                        lemma_pow16_exact();
                        lemma_hex_roundtrip(spec_format_version(), 8);
                        lemma_hex_roundtrip(graph_t(g1).graphs.len() as int, 16);
                        lemma_hex_roundtrip(graph_t(g1).nodes.len() as int, 16);
                        lemma_hex_roundtrip(graph_t(g1).links.len() as int, 16);
                        lemma_hex_roundtrip(graph_t(g1).variables.len() as int, 16);
                        lemma_hex_roundtrip(graph_t(g1).next_node_id as int, 8);
                        lemma_hex_roundtrip(graph_t(g1).next_pin_id as int, 8);
                    }
                }
            }
            return None;
        },
    };
    let (nlk, p7) = match parse_hex(s, total, p6, 16) {
        Some(v) => v,
        None => {
            proof {
                assert forall|g1: BlueprintGraph|
                    !(graph_fits(#[trigger] graph_t(g1)) && s@ =~= spec_ser_graph(graph_t(
                        g1,
                    ))) by {
                    if graph_fits(graph_t(g1)) && s@ =~= spec_ser_graph(graph_t(g1)) {
                        graph_match_parts(s@, graph_t(g1));
                        lemma_usize_fits();
                        lemma_pow16_8();
                        lemma_pow16_exact();
                        lemma_hex_roundtrip(spec_format_version(), 8);
                        lemma_hex_roundtrip(graph_t(g1).graphs.len() as int, 16);
                        lemma_hex_roundtrip(graph_t(g1).nodes.len() as int, 16);
                        lemma_hex_roundtrip(graph_t(g1).links.len() as int, 16);
                        lemma_hex_roundtrip(graph_t(g1).variables.len() as int, 16);
                        lemma_hex_roundtrip(graph_t(g1).next_node_id as int, 8);
                        lemma_hex_roundtrip(graph_t(g1).next_pin_id as int, 8);
                    }
                }
            }
            return None;
        },
    };
    if nlk > (usize::MAX as u64) {
        proof {
            assert forall|g1: BlueprintGraph|
                    !(graph_fits(#[trigger] graph_t(g1)) && s@ =~= spec_ser_graph(graph_t(
                        g1,
                    ))) by {
                    if graph_fits(graph_t(g1)) && s@ =~= spec_ser_graph(graph_t(g1)) {
                        graph_match_parts(s@, graph_t(g1));
                        lemma_usize_fits();
                        lemma_pow16_8();
                        lemma_pow16_exact();
                        lemma_hex_roundtrip(spec_format_version(), 8);
                        lemma_hex_roundtrip(graph_t(g1).graphs.len() as int, 16);
                        lemma_hex_roundtrip(graph_t(g1).nodes.len() as int, 16);
                        lemma_hex_roundtrip(graph_t(g1).links.len() as int, 16);
                        lemma_hex_roundtrip(graph_t(g1).variables.len() as int, 16);
                        lemma_hex_roundtrip(graph_t(g1).next_node_id as int, 8);
                        lemma_hex_roundtrip(graph_t(g1).next_pin_id as int, 8);
                    }
                }
        }
        return None;
    }
    let (links, p8) = match parse_links(s, total, p7, nlk as usize) {
        Some(v) => v,
        None => {
            proof {
                assert forall|g1: BlueprintGraph|
                    !(graph_fits(#[trigger] graph_t(g1)) && s@ =~= spec_ser_graph(graph_t(
                        g1,
                    ))) by {
                    if graph_fits(graph_t(g1)) && s@ =~= spec_ser_graph(graph_t(g1)) {
                        graph_match_parts(s@, graph_t(g1));
                        lemma_usize_fits();
                        lemma_pow16_8();
                        lemma_pow16_exact();
                        lemma_hex_roundtrip(spec_format_version(), 8);
                        lemma_hex_roundtrip(graph_t(g1).graphs.len() as int, 16);
                        lemma_hex_roundtrip(graph_t(g1).nodes.len() as int, 16);
                        lemma_hex_roundtrip(graph_t(g1).links.len() as int, 16);
                        lemma_hex_roundtrip(graph_t(g1).variables.len() as int, 16);
                        lemma_hex_roundtrip(graph_t(g1).next_node_id as int, 8);
                        lemma_hex_roundtrip(graph_t(g1).next_pin_id as int, 8);
                    }
                }
            }
            return None;
        },
    };
    let (nvr, p9) = match parse_hex(s, total, p8, 16) {
        Some(v) => v,
        None => {
            proof {
                assert forall|g1: BlueprintGraph|
                    !(graph_fits(#[trigger] graph_t(g1)) && s@ =~= spec_ser_graph(graph_t(
                        g1,
                    ))) by {
                    if graph_fits(graph_t(g1)) && s@ =~= spec_ser_graph(graph_t(g1)) {
                        graph_match_parts(s@, graph_t(g1));
                        lemma_usize_fits();
                        lemma_pow16_8();
                        lemma_pow16_exact();
                        lemma_hex_roundtrip(spec_format_version(), 8);
                        lemma_hex_roundtrip(graph_t(g1).graphs.len() as int, 16);
                        lemma_hex_roundtrip(graph_t(g1).nodes.len() as int, 16);
                        lemma_hex_roundtrip(graph_t(g1).links.len() as int, 16);
                        lemma_hex_roundtrip(graph_t(g1).variables.len() as int, 16);
                        lemma_hex_roundtrip(graph_t(g1).next_node_id as int, 8);
                        lemma_hex_roundtrip(graph_t(g1).next_pin_id as int, 8);
                    }
                }
            }
            return None;
        },
    };
    if nvr > (usize::MAX as u64) {
        proof {
            assert forall|g1: BlueprintGraph|
                    !(graph_fits(#[trigger] graph_t(g1)) && s@ =~= spec_ser_graph(graph_t(
                        g1,
                    ))) by {
                    if graph_fits(graph_t(g1)) && s@ =~= spec_ser_graph(graph_t(g1)) {
                        graph_match_parts(s@, graph_t(g1));
                        lemma_usize_fits();
                        lemma_pow16_8();
                        lemma_pow16_exact();
                        lemma_hex_roundtrip(spec_format_version(), 8);
                        lemma_hex_roundtrip(graph_t(g1).graphs.len() as int, 16);
                        lemma_hex_roundtrip(graph_t(g1).nodes.len() as int, 16);
                        lemma_hex_roundtrip(graph_t(g1).links.len() as int, 16);
                        lemma_hex_roundtrip(graph_t(g1).variables.len() as int, 16);
                        lemma_hex_roundtrip(graph_t(g1).next_node_id as int, 8);
                        lemma_hex_roundtrip(graph_t(g1).next_pin_id as int, 8);
                    }
                }
        }
        return None;
    }
    let (variables, p10) = match parse_vars(s, total, p9, nvr as usize) {
        Some(v) => v,
        None => {
            proof {
                assert forall|g1: BlueprintGraph|
                    !(graph_fits(#[trigger] graph_t(g1)) && s@ =~= spec_ser_graph(graph_t(
                        g1,
                    ))) by {
                    if graph_fits(graph_t(g1)) && s@ =~= spec_ser_graph(graph_t(g1)) {
                        graph_match_parts(s@, graph_t(g1));
                        lemma_usize_fits();
                        lemma_pow16_8();
                        lemma_pow16_exact();
                        lemma_hex_roundtrip(spec_format_version(), 8);
                        lemma_hex_roundtrip(graph_t(g1).graphs.len() as int, 16);
                        lemma_hex_roundtrip(graph_t(g1).nodes.len() as int, 16);
                        lemma_hex_roundtrip(graph_t(g1).links.len() as int, 16);
                        lemma_hex_roundtrip(graph_t(g1).variables.len() as int, 16);
                        lemma_hex_roundtrip(graph_t(g1).next_node_id as int, 8);
                        lemma_hex_roundtrip(graph_t(g1).next_pin_id as int, 8);
                    }
                }
            }
            return None;
        },
    };
    let (nni, p11) = match parse_hex(s, total, p10, 8) {
        Some(v) => v,
        None => {
            proof {
                assert forall|g1: BlueprintGraph|
                    !(graph_fits(#[trigger] graph_t(g1)) && s@ =~= spec_ser_graph(graph_t(
                        g1,
                    ))) by {
                    if graph_fits(graph_t(g1)) && s@ =~= spec_ser_graph(graph_t(g1)) {
                        graph_match_parts(s@, graph_t(g1));
                        lemma_usize_fits();
                        lemma_pow16_8();
                        lemma_pow16_exact();
                        lemma_hex_roundtrip(spec_format_version(), 8);
                        lemma_hex_roundtrip(graph_t(g1).graphs.len() as int, 16);
                        lemma_hex_roundtrip(graph_t(g1).nodes.len() as int, 16);
                        lemma_hex_roundtrip(graph_t(g1).links.len() as int, 16);
                        lemma_hex_roundtrip(graph_t(g1).variables.len() as int, 16);
                        lemma_hex_roundtrip(graph_t(g1).next_node_id as int, 8);
                        lemma_hex_roundtrip(graph_t(g1).next_pin_id as int, 8);
                    }
                }
            }
            return None;
        },
    };
    let (npi, p12) = match parse_hex(s, total, p11, 8) {
        Some(v) => v,
        None => {
            proof {
                assert forall|g1: BlueprintGraph|
                    !(graph_fits(#[trigger] graph_t(g1)) && s@ =~= spec_ser_graph(graph_t(
                        g1,
                    ))) by {
                    if graph_fits(graph_t(g1)) && s@ =~= spec_ser_graph(graph_t(g1)) {
                        graph_match_parts(s@, graph_t(g1));
                        lemma_usize_fits();
                        lemma_pow16_8();
                        lemma_pow16_exact();
                        lemma_hex_roundtrip(spec_format_version(), 8);
                        lemma_hex_roundtrip(graph_t(g1).graphs.len() as int, 16);
                        lemma_hex_roundtrip(graph_t(g1).nodes.len() as int, 16);
                        lemma_hex_roundtrip(graph_t(g1).links.len() as int, 16);
                        lemma_hex_roundtrip(graph_t(g1).variables.len() as int, 16);
                        lemma_hex_roundtrip(graph_t(g1).next_node_id as int, 8);
                        lemma_hex_roundtrip(graph_t(g1).next_pin_id as int, 8);
                    }
                }
            }
            return None;
        },
    };
    if p12 != total {
        proof {
            assert forall|g1: BlueprintGraph|
                    !(graph_fits(#[trigger] graph_t(g1)) && s@ =~= spec_ser_graph(graph_t(
                        g1,
                    ))) by {
                    if graph_fits(graph_t(g1)) && s@ =~= spec_ser_graph(graph_t(g1)) {
                        graph_match_parts(s@, graph_t(g1));
                        lemma_usize_fits();
                        lemma_pow16_8();
                        lemma_pow16_exact();
                        lemma_hex_roundtrip(spec_format_version(), 8);
                        lemma_hex_roundtrip(graph_t(g1).graphs.len() as int, 16);
                        lemma_hex_roundtrip(graph_t(g1).nodes.len() as int, 16);
                        lemma_hex_roundtrip(graph_t(g1).links.len() as int, 16);
                        lemma_hex_roundtrip(graph_t(g1).variables.len() as int, 16);
                        lemma_hex_roundtrip(graph_t(g1).next_node_id as int, 8);
                        lemma_hex_roundtrip(graph_t(g1).next_pin_id as int, 8);
                    }
                }
        }
        return None;
    }
    let out = BlueprintGraph {
        id: GraphId(id),
        graphs,
        nodes,
        links,
        variables,
        next_node_id: #[verifier::truncate] (nni as u32),
        next_pin_id: #[verifier::truncate] (npi as u32),
    };
    proof {
        assert forall|g1: BlueprintGraph|
            graph_fits(#[trigger] graph_t(g1)) && s@ =~= spec_ser_graph(graph_t(g1)) implies
            graph_t(out) == graph_t(g1) by {
            graph_match_parts(s@, graph_t(g1));
            lemma_pow16_8();
            lemma_pow16_exact();
            lemma_hex_roundtrip(graph_t(g1).graphs.len() as int, 16);
            lemma_hex_roundtrip(graph_t(g1).nodes.len() as int, 16);
            lemma_hex_roundtrip(graph_t(g1).links.len() as int, 16);
            lemma_hex_roundtrip(graph_t(g1).variables.len() as int, 16);
            lemma_hex_roundtrip(graph_t(g1).next_node_id as int, 8);
            lemma_hex_roundtrip(graph_t(g1).next_pin_id as int, 8);
            assert(graph_t(out) =~~= graph_t(g1));
        }
    }
    Some(out)
}

} // verus!
