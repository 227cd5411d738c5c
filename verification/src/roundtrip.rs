//! The codec round-trip law: decoding what [`crate::codec::encode_message`]
//! writes yields the original message.  The proof walks the reader's spec
//! functions over the writer's output, one member at a time.

use vstd::prelude::*;

use crate::codec::{dec_digits, digit_ch, enc_bool, enc_key, enc_null, enc_opt_bool, enc_opt_str,
    enc_opt_usize, enc_str, esc, esc_char, field_of, fld, lemma_cat_step, opt_bool, opt_str,
    opt_usize, req_bool,
    req_str, req_usize, spec_decode, spec_encode, spec_msg_of_members};
use crate::json::{hex4, hex_val, is_digit, is_jws, spec_digits_end, spec_int_of_lexeme,
    spec_members, spec_members_after, spec_members_colon, spec_members_comma, spec_members_value,
    spec_number_end, spec_str_body, spec_value_prim, spec_ws, digits_val, MemberV, PrimV};
use crate::rtc::MsgV;

verus! {

/// A character that JSON strings carry verbatim.
pub open spec fn plain(c: char) -> bool {
    c != '"' && c != '\\' && c as u32 >= 0x20
}

/// A token of verbatim characters: the protocol's keys and discriminators.
pub open spec fn plain_seq(k: Seq<char>) -> bool {
    forall|j: int| 0 <= j < k.len() ==> plain(#[trigger] k[j])
}

/// Hex digits read back as their value.
proof fn lemma_hex_digit_inverse(d: nat)
    requires
        d < 16,
    ensures
        hex_val(digit_ch(d)) == Some(d as u32),
        !is_digit(digit_ch(d)) ==> d >= 10,
{
    broadcast use vstd::utf8::char_u32_cast;

    if d < 10 {
        assert((48 + d) as u32 as char as u32 == 48 + d) by {
            assert(((48 + d) as u32 as char) as u32 == (48 + d) as u32);
        }
    } else {
        assert((87 + d) as u32 as char as u32 == 87 + d) by {
            assert(((87 + d) as u32 as char) as u32 == (87 + d) as u32);
        }
    }
}

/// Reading a quoted run of verbatim characters.
proof fn lemma_plain_body(t: Seq<char>, i: int, k: Seq<char>)
    requires
        plain_seq(k),
        0 <= i,
        i + k.len() + 1 <= t.len(),
        t.subrange(i, i + k.len()) == k,
        t[i + k.len()] == '"',
    ensures
        spec_str_body(t, i) == Some((k, i + k.len() + 1)),
    decreases k.len(),
{
    if k.len() == 0 {
        assert(t[i] == '"');
    } else {
        assert(t[i] == k[0]) by {
            assert(t.subrange(i, i + k.len() as int)[0] == k[0]);
        }
        assert(plain(k[0]));
        assert(t.subrange(i + 1, i + k.len() as int) =~= k.drop_first()) by {
            assert(forall|j: int|
                0 <= j < k.len() ==> #[trigger] t.subrange(i, i + k.len())[j] == k[j]);
        }
        assert(plain_seq(k.drop_first())) by {
            assert(forall|j: int|
                0 <= j < k.len() - 1 ==> #[trigger] k.drop_first()[j] == k[j + 1]);
        }
        lemma_plain_body(t, i + 1, k.drop_first());
        assert(spec_str_body(t, i + 1) == Some((k.drop_first(), i + k.len() + 1)));
        assert(spec_str_body(t, i) == Some((seq![k[0]].add(k.drop_first()), i + k.len() + 1)));
        assert(seq![k[0]].add(k.drop_first()) =~= k);
    }
}

/// Reading a quoted, escaped string back: the body after the opening
/// quote decodes to the original characters.
#[verifier::rlimit(100)]
#[verifier::spinoff_prover]
proof fn lemma_esc_body(t: Seq<char>, i: int, s: Seq<char>)
    requires
        0 <= i,
        i + esc(s).len() + 1 <= t.len(),
        t.subrange(i, i + esc(s).len()) == esc(s),
        t[i + esc(s).len()] == '"',
    ensures
        spec_str_body(t, i) == Some((s, i + esc(s).len() + 1)),
    decreases s.len(),
{
    broadcast use vstd::utf8::char_u32_cast;
    broadcast use vstd::utf8::char_is_scalar;

    if s.len() == 0 {
        assert(t[i] == '"');
    } else {
        let c = s[0];
        let ec = esc_char(c);
        let rest = esc(s.drop_first());
        assert(esc(s) == ec.add(rest));
        assert forall|j: int| 0 <= j < esc(s).len() implies t[i + j] == #[trigger] esc(s)[j] by {
            assert(t.subrange(i, i + esc(s).len() as int)[j] == esc(s)[j]);
        }
        assert(forall|j: int| 0 <= j < ec.len() ==> t[i + j] == #[trigger] ec[j]) by {
            assert(forall|j: int| 0 <= j < ec.len() ==> esc(s)[j] == #[trigger] ec[j]);
        }
        let mid = t.subrange(i + ec.len(), i + esc(s).len());
        assert forall|j: int| 0 <= j < mid.len() implies #[trigger] mid[j] == rest[j] by {
            assert(t[i + ec.len() as int + j] == esc(s)[ec.len() as int + j]);
            assert(esc(s)[ec.len() + j] == rest[j]);
        }
        assert(mid =~= rest);
        lemma_esc_body(t, i + ec.len(), s.drop_first());
        let tail = spec_str_body(t, i + ec.len());
        assert(tail == Some((s.drop_first(), i + esc(s).len() + 1)));
        if c == '"' {
            assert(t[i] == '\\' && t[i + 1] == '"');
            assert(spec_str_body(t, i) == Some(
                (seq!['"'].add(s.drop_first()), i + esc(s).len() + 1),
            ));
        } else if c == '\\' {
            assert(t[i] == '\\' && t[i + 1] == '\\');
        } else if c == '\u{8}' {
            assert(t[i] == '\\' && t[i + 1] == 'b');
        } else if c == '\u{c}' {
            assert(t[i] == '\\' && t[i + 1] == 'f');
        } else if c == '\n' {
            assert(t[i] == '\\' && t[i + 1] == 'n');
        } else if c == '\r' {
            assert(t[i] == '\\' && t[i + 1] == 'r');
        } else if c == '\t' {
            assert(t[i] == '\\' && t[i + 1] == 't');
        } else if (c as u32) < 0x20 {
            let cu = c as u32;
            assert(t[i] == '\\' && t[i + 1] == 'u' && t[i + 2] == '0' && t[i + 3] == '0');
            assert(t[i + 4] == digit_ch((cu / 16) as nat));
            assert(t[i + 5] == digit_ch((cu % 16) as nat));
            lemma_hex_digit_inverse((cu / 16) as nat);
            lemma_hex_digit_inverse((cu % 16) as nat);
            assert(hex_val('0') == Some(0u32));
            assert(hex4(t, i + 2) == Some(
                (0u32 * 0x1000 + 0u32 * 0x100 + (cu / 16) * 0x10 + (cu % 16)) as u32,
            ));
            assert(0u32 * 0x1000 + 0u32 * 0x100 + (cu / 16) * 0x10 + (cu % 16) == cu);
            assert(cu == c as u32);
            vstd::utf8::char_u32_cast(c, cu);
            assert((cu as char) == c);
            assert(spec_str_body(t, i) == Some(
                (seq![c].add(s.drop_first()), i + esc(s).len() + 1),
            ));
        } else {
            assert(ec[0] == c);
            assert(t[i + 0] == ec[0]);
            assert(t[i] == c);
            assert(!(t[i] == '"') && !(t[i] == '\\') && !((t[i] as u32) < 0x20));
        }
        assert(seq![c].add(s.drop_first()) =~= s);
    }
}

/// Reading a whole encoded string value.
proof fn lemma_value_str(t: Seq<char>, i: int, s: Seq<char>)
    requires
        0 <= i,
        i + enc_str(s).len() <= t.len(),
        t.subrange(i, i + enc_str(s).len()) == enc_str(s),
    ensures
        spec_value_prim(t, i) == Some((PrimV::Str(s), i + enc_str(s).len())),
{
    assert forall|j: int| 0 <= j < enc_str(s).len() implies t[i + j] == #[trigger] enc_str(s)[j]
        by {
        assert(t.subrange(i, i + enc_str(s).len() as int)[j] == enc_str(s)[j]);
    }
    let el = esc(s).len() as int;
    assert(enc_str(s)[0] == '"');
    assert(t[i + 0] == enc_str(s)[0]);
    assert(t[i] == '"');
    let mid = t.subrange(i + 1, i + 1 + el);
    assert forall|j: int| 0 <= j < mid.len() implies #[trigger] mid[j] == esc(s)[j] by {
        assert(t[i + (1 + j)] == enc_str(s)[1 + j]);
        assert(enc_str(s)[1 + j] == esc(s)[j]);
    }
    assert(mid =~= esc(s));
    assert(enc_str(s)[1 + el] == '"');
    assert(t[i + (1 + el)] == enc_str(s)[1 + el]);
    lemma_esc_body(t, i + 1, s);
}

/// Reading a quoted plain token as a string value.
proof fn lemma_value_key(t: Seq<char>, i: int, k: Seq<char>)
    requires
        plain_seq(k),
        0 <= i,
        i + enc_key(k).len() <= t.len(),
        t.subrange(i, i + enc_key(k).len()) == enc_key(k),
    ensures
        spec_value_prim(t, i) == Some((PrimV::Str(k), i + enc_key(k).len())),
{
    assert forall|j: int| 0 <= j < enc_key(k).len() implies t[i + j] == #[trigger] enc_key(k)[j]
        by {
        assert(t.subrange(i, i + enc_key(k).len() as int)[j] == enc_key(k)[j]);
    }
    let kl = k.len() as int;
    assert(enc_key(k)[0] == '"');
    assert(t[i + 0] == enc_key(k)[0]);
    assert(t[i] == '"');
    let mid = t.subrange(i + 1, i + 1 + kl);
    assert forall|j: int| 0 <= j < mid.len() implies #[trigger] mid[j] == k[j] by {
        assert(t[i + (1 + j)] == enc_key(k)[1 + j]);
        assert(enc_key(k)[1 + j] == k[j]);
    }
    assert(mid =~= k);
    assert(enc_key(k)[1 + kl] == '"');
    assert(t[i + (1 + kl)] == enc_key(k)[1 + kl]);
    lemma_plain_body(t, i + 1, k);
}

/// The decimal digits of `n` are digits, start the numeral, and read
/// back as `n`.
proof fn lemma_dec_digits_props(n: nat)
    ensures
        dec_digits(n).len() >= 1,
        forall|j: int| 0 <= j < dec_digits(n).len() ==> is_digit(#[trigger] dec_digits(n)[j]),
        digits_val(dec_digits(n)) == n,
    decreases n,
{
    lemma_hex_digit_inverse(n % 10);
    if n < 10 {
        lemma_hex_digit_inverse(n);
        assert(digit_ch(n) as u32 == 48 + n);
        assert(dec_digits(n) =~= Seq::empty().push(digit_ch(n)));
        assert(dec_digits(n).drop_last() =~= Seq::<char>::empty());
        assert(digits_val(dec_digits(n)) == digits_val(Seq::<char>::empty()) * 10 + (digit_ch(
            n,
        ) as u32 - 48));
    } else {
        lemma_dec_digits_props(n / 10);
        let d = dec_digits(n);
        assert(d == dec_digits(n / 10).push(digit_ch(n % 10)));
        assert(forall|j: int| 0 <= j < d.len() ==> is_digit(#[trigger] d[j])) by {
            assert(forall|j: int|
                0 <= j < d.len() - 1 ==> #[trigger] d[j] == dec_digits(n / 10)[j]);
            assert(d[d.len() - 1] == digit_ch(n % 10));
            assert(is_digit(digit_ch(n % 10)));
        }
        assert(d.drop_last() =~= dec_digits(n / 10));
        assert(digit_ch(n % 10) as u32 == 48 + (n % 10));
        assert(digits_val(d) == (n / 10) * 10 + (n % 10));
        assert((n / 10) * 10 + (n % 10) == n) by (nonlinear_arith);
    }
}

/// Reading an encoded unsigned integer value, with a separator after it.
proof fn lemma_value_num(t: Seq<char>, i: int, n: u64)
    requires
        0 <= i,
        i + dec_digits(n as nat).len() < t.len(),
        t.subrange(i, i + dec_digits(n as nat).len()) == dec_digits(n as nat),
        t[i + dec_digits(n as nat).len()] == ',' || t[i + dec_digits(n as nat).len()] == '}'
            || t[i + dec_digits(n as nat).len()] == ']',
    ensures
        spec_value_prim(t, i) == Some(
            (PrimV::Num(Some(n)), i + dec_digits(n as nat).len()),
        ),
{
    let d = dec_digits(n as nat);
    let e = i + d.len();
    lemma_dec_digits_props(n as nat);
    assert forall|j: int| 0 <= j < d.len() implies t[i + j] == #[trigger] d[j] by {
        assert(t.subrange(i, e)[j] == d[j]);
    }
    assert forall|j: int| i <= j < e implies is_digit(t[j]) by {
        assert(t[j] == d[j - i]);
    }
    assert(is_digit(t[i]));
    assert(!is_digit(t[e]));
    lemma_digits_end_run(t, i, e);
    assert(spec_digits_end(t, i) == e);
    // the numeral grammar stops right at the separator
    assert(t[i] != '-' && t[i] != '"' && t[i] != '{' && t[i] != '[' && t[i] != 't' && t[i] != 'f'
        && t[i] != 'n') by {
        assert(48 <= t[i] as u32 <= 57);
    }
    assert(t[e] != '.' && t[e] != 'e' && t[e] != 'E');
    assert(spec_number_end(t, i) == Some(e));
    // and reads back as n
    assert(t.subrange(i, e) == d);
    assert(digits_val(t.subrange(i, e)) == n as nat);
    assert(spec_int_of_lexeme(t, i, e) == Some(n));
    assert(!is_jws(t[i]));
}

/// A run of digits ending at the first non-digit.
proof fn lemma_digits_end_run(t: Seq<char>, i: int, e: int)
    requires
        0 <= i <= e < t.len(),
        forall|j: int| i <= j < e ==> is_digit(t[j]),
        !is_digit(t[e]),
    ensures
        spec_digits_end(t, i) == e,
    decreases e - i,
{
    if i < e {
        lemma_digits_end_run(t, i + 1, e);
    }
}

/// Reading an encoded boolean value.
proof fn lemma_value_bool(t: Seq<char>, i: int, b: bool)
    requires
        0 <= i,
        i + enc_bool(b).len() <= t.len(),
        t.subrange(i, i + enc_bool(b).len()) == enc_bool(b),
    ensures
        spec_value_prim(t, i) == Some((PrimV::Bool(b), i + enc_bool(b).len())),
{
    assert forall|j: int| 0 <= j < enc_bool(b).len() implies t[i + j] == #[trigger] enc_bool(
        b,
    )[j] by {
        assert(t.subrange(i, i + enc_bool(b).len() as int)[j] == enc_bool(b)[j]);
    }
    if b {
        assert(t[i] == 't' && t[i + 1] == 'r' && t[i + 2] == 'u' && t[i + 3] == 'e');
    } else {
        assert(t[i] == 'f' && t[i + 1] == 'a' && t[i + 2] == 'l' && t[i + 3] == 's' && t[i + 4]
            == 'e');
    }
}

/// Reading an encoded null value.
proof fn lemma_value_null(t: Seq<char>, i: int)
    requires
        0 <= i,
        i + 4 <= t.len(),
        t.subrange(i, i + 4) == enc_null(),
    ensures
        spec_value_prim(t, i) == Some((PrimV::Null, i + 4)),
{
    assert forall|j: int| 0 <= j < 4 implies t[i + j] == #[trigger] enc_null()[j] by {
        assert(t.subrange(i, i + 4)[j] == enc_null()[j]);
    }
    assert(t[i] == 'n' && t[i + 1] == 'u' && t[i + 2] == 'l' && t[i + 3] == 'l');
}

/// Whatever value the classifier accepted, it started with a value
/// character, never whitespace.
proof fn lemma_value_prim_starter(t: Seq<char>, i: int)
    requires
        spec_value_prim(t, i) is Some,
    ensures
        0 <= i < t.len(),
        !is_jws(t[i]),
{
}

/// One member of an object: its quoted key, the colon, and a value that
/// classifies; the members of the object continue after the value.
#[verifier::rlimit(100)]
#[verifier::spinoff_prover]
proof fn lemma_member(t: Seq<char>, i: int, first: bool, key: Seq<char>, pv: PrimV, vend: int)
    requires
        plain_seq(key),
        0 <= i,
        i + fld(key).len() <= t.len(),
        t.subrange(i, i + fld(key).len()) == fld(key),
        spec_value_prim(t, i + fld(key).len()) == Some((pv, vend)),
        i + fld(key).len() < vend <= t.len(),
    ensures
        spec_members(t, i, first) == (match spec_members_comma(t, vend) {
            Some(p) => Some((seq![MemberV { key, val: pv }].add(p.0), p.1)),
            None => None,
        }),
{
    let fl = fld(key);
    assert forall|j: int| 0 <= j < fl.len() implies t[i + j] == #[trigger] fl[j] by {
        assert(t.subrange(i, i + fl.len() as int)[j] == fl[j]);
    }
    let kl = key.len() as int;
    assert(fl[0] == '"');
    assert(t[i + 0] == fl[0]);
    assert(t[i] == '"');
    let mid = t.subrange(i + 1, i + 1 + kl);
    assert forall|j: int| 0 <= j < mid.len() implies #[trigger] mid[j] == key[j] by {
        assert(t[i + (1 + j)] == fl[1 + j]);
        assert(fl[1 + j] == key[j]);
    }
    assert(mid =~= key);
    assert(fl[1 + kl] == '"');
    assert(t[i + (1 + kl)] == fl[1 + kl]);
    lemma_plain_body(t, i + 1, key);
    let kq = i + key.len() + 2;
    assert(spec_str_body(t, i + 1) == Some((key, kq)));
    assert(!is_jws(t[i]));
    assert(spec_members(t, i, first) == spec_members_colon(t, kq, key));
    assert(fl[2 + kl] == ':');
    assert(t[i + (2 + kl)] == fl[2 + kl]);
    assert(t[kq] == ':');
    assert(!is_jws(t[kq]));
    assert(spec_members_colon(t, kq, key) == spec_members_value(t, kq + 1, key));
    let vstart = kq + 1;
    assert(vstart == i + fl.len());
    lemma_value_prim_starter(t, vstart);
    assert(spec_members_value(t, vstart, key) == spec_members_after(t, vend, key, pv));
}

/// The decoded members continue correctly after a separator.
proof fn lemma_comma_then(t: Seq<char>, j: int)
    requires
        0 <= j < t.len(),
        t[j] == ',',
    ensures
        spec_members_comma(t, j) == spec_members(t, j + 1, false),
{
}

/// A closing brace ends the member list.
proof fn lemma_close(t: Seq<char>, j: int)
    requires
        0 <= j < t.len(),
        t[j] == '}',
    ensures
        spec_members_comma(t, j) == Some((Seq::<MemberV>::empty(), j + 1)),
{
}

/// How an optional string field is carried: null when absent.
pub open spec fn opt_str_prim(o: Option<Seq<char>>) -> PrimV {
    match o {
        None => PrimV::Null,
        Some(s) => PrimV::Str(s),
    }
}

pub open spec fn opt_bool_prim(o: Option<bool>) -> PrimV {
    match o {
        None => PrimV::Null,
        Some(b) => PrimV::Bool(b),
    }
}

pub open spec fn opt_usize_prim(o: Option<usize>) -> PrimV {
    match o {
        None => PrimV::Null,
        Some(n) => PrimV::Num(Some(n as u64)),
    }
}


/// The member list of an encoded `offer` frame.
pub open spec fn offer_ms(from: Seq<char>, to: Seq<char>) -> Seq<MemberV> {
    seq![MemberV { key: "type"@, val: PrimV::Str("offer"@) }].add(seq![MemberV { key: "from"@, val: PrimV::Str(from) }].add(seq![MemberV { key: "to"@, val: PrimV::Str(to) }].add(Seq::<MemberV>::empty())))
}

#[verifier::rlimit(100)]
#[verifier::spinoff_prover]
proof fn lemma_rt_offer_layout0(from: Seq<char>, to: Seq<char>)
    ensures
        ({
            let t = spec_encode(MsgV::Offer { from, to });
            &&& t.len() as int == 1 + fld("type"@).len() as int + enc_key("offer"@).len() as int + 1 + fld("from"@).len() as int + enc_str(from).len() as int + 1 + fld("to"@).len() as int + enc_str(to).len() as int + 1
            &&& t[0] == '{'
            &&& t.subrange(1, 1 + fld("type"@).len() as int) == fld("type"@)
            &&& t.subrange(1 + fld("type"@).len() as int, 1 + fld("type"@).len() as int + enc_key("offer"@).len() as int) == enc_key("offer"@)
        }),
{
    let m = MsgV::Offer { from, to };
    let t = spec_encode(m);
    assert(t == seq!['{'].add(fld("type"@)).add(enc_key("offer"@)).add(seq![',']).add(fld("from"@)).add(enc_str(from)).add(seq![',']).add(fld("to"@)).add(enc_str(to)).add(seq!['}']));
    assert(t.len() as int == 1 + fld("type"@).len() as int + enc_key("offer"@).len() as int + 1 + fld("from"@).len() as int + enc_str(from).len() as int + 1 + fld("to"@).len() as int + enc_str(to).len() as int + 1);
    assert(t[0] == '{');
    assert(t.subrange(1, 1 + fld("type"@).len() as int) =~= fld("type"@));
    assert(t.subrange(1 + fld("type"@).len() as int, 1 + fld("type"@).len() as int + enc_key("offer"@).len() as int) =~= enc_key("offer"@));
}

#[verifier::rlimit(100)]
#[verifier::spinoff_prover]
proof fn lemma_rt_offer_layout1(from: Seq<char>, to: Seq<char>)
    ensures
        ({
            let t = spec_encode(MsgV::Offer { from, to });
            &&& t[1 + fld("type"@).len() as int + enc_key("offer"@).len() as int] == ','
            &&& t.subrange(1 + fld("type"@).len() as int + enc_key("offer"@).len() as int + 1, 1 + fld("type"@).len() as int + enc_key("offer"@).len() as int + 1 + fld("from"@).len() as int) == fld("from"@)
            &&& t.subrange(1 + fld("type"@).len() as int + enc_key("offer"@).len() as int + 1 + fld("from"@).len() as int, 1 + fld("type"@).len() as int + enc_key("offer"@).len() as int + 1 + fld("from"@).len() as int + enc_str(from).len() as int) == enc_str(from)
            &&& t[1 + fld("type"@).len() as int + enc_key("offer"@).len() as int + 1 + fld("from"@).len() as int + enc_str(from).len() as int] == ','
        }),
{
    let m = MsgV::Offer { from, to };
    let t = spec_encode(m);
    assert(t == seq!['{'].add(fld("type"@)).add(enc_key("offer"@)).add(seq![',']).add(fld("from"@)).add(enc_str(from)).add(seq![',']).add(fld("to"@)).add(enc_str(to)).add(seq!['}']));
    assert(t[1 + fld("type"@).len() as int + enc_key("offer"@).len() as int] == ',');
    assert(t.subrange(1 + fld("type"@).len() as int + enc_key("offer"@).len() as int + 1, 1 + fld("type"@).len() as int + enc_key("offer"@).len() as int + 1 + fld("from"@).len() as int) =~= fld("from"@));
    assert(t.subrange(1 + fld("type"@).len() as int + enc_key("offer"@).len() as int + 1 + fld("from"@).len() as int, 1 + fld("type"@).len() as int + enc_key("offer"@).len() as int + 1 + fld("from"@).len() as int + enc_str(from).len() as int) =~= enc_str(from));
    assert(t[1 + fld("type"@).len() as int + enc_key("offer"@).len() as int + 1 + fld("from"@).len() as int + enc_str(from).len() as int] == ',');
}

#[verifier::rlimit(100)]
#[verifier::spinoff_prover]
proof fn lemma_rt_offer_layout2(from: Seq<char>, to: Seq<char>)
    ensures
        ({
            let t = spec_encode(MsgV::Offer { from, to });
            &&& t.subrange(1 + fld("type"@).len() as int + enc_key("offer"@).len() as int + 1 + fld("from"@).len() as int + enc_str(from).len() as int + 1, 1 + fld("type"@).len() as int + enc_key("offer"@).len() as int + 1 + fld("from"@).len() as int + enc_str(from).len() as int + 1 + fld("to"@).len() as int) == fld("to"@)
            &&& t.subrange(1 + fld("type"@).len() as int + enc_key("offer"@).len() as int + 1 + fld("from"@).len() as int + enc_str(from).len() as int + 1 + fld("to"@).len() as int, 1 + fld("type"@).len() as int + enc_key("offer"@).len() as int + 1 + fld("from"@).len() as int + enc_str(from).len() as int + 1 + fld("to"@).len() as int + enc_str(to).len() as int) == enc_str(to)
            &&& t[1 + fld("type"@).len() as int + enc_key("offer"@).len() as int + 1 + fld("from"@).len() as int + enc_str(from).len() as int + 1 + fld("to"@).len() as int + enc_str(to).len() as int] == '}'
        }),
{
    let m = MsgV::Offer { from, to };
    let t = spec_encode(m);
    assert(t == seq!['{'].add(fld("type"@)).add(enc_key("offer"@)).add(seq![',']).add(fld("from"@)).add(enc_str(from)).add(seq![',']).add(fld("to"@)).add(enc_str(to)).add(seq!['}']));
    assert(t.subrange(1 + fld("type"@).len() as int + enc_key("offer"@).len() as int + 1 + fld("from"@).len() as int + enc_str(from).len() as int + 1, 1 + fld("type"@).len() as int + enc_key("offer"@).len() as int + 1 + fld("from"@).len() as int + enc_str(from).len() as int + 1 + fld("to"@).len() as int) =~= fld("to"@));
    assert(t.subrange(1 + fld("type"@).len() as int + enc_key("offer"@).len() as int + 1 + fld("from"@).len() as int + enc_str(from).len() as int + 1 + fld("to"@).len() as int, 1 + fld("type"@).len() as int + enc_key("offer"@).len() as int + 1 + fld("from"@).len() as int + enc_str(from).len() as int + 1 + fld("to"@).len() as int + enc_str(to).len() as int) =~= enc_str(to));
    assert(t[1 + fld("type"@).len() as int + enc_key("offer"@).len() as int + 1 + fld("from"@).len() as int + enc_str(from).len() as int + 1 + fld("to"@).len() as int + enc_str(to).len() as int] == '}');
}

#[verifier::rlimit(100)]
#[verifier::spinoff_prover]
proof fn lemma_rt_offer_tail0(from: Seq<char>, to: Seq<char>)
    ensures
        ({
            let t = spec_encode(MsgV::Offer { from, to });
            spec_members(t, 1, true) == Some((seq![MemberV { key: "type"@, val: PrimV::Str("offer"@) }].add(seq![MemberV { key: "from"@, val: PrimV::Str(from) }].add(seq![MemberV { key: "to"@, val: PrimV::Str(to) }].add(Seq::<MemberV>::empty()))), 1 + fld("type"@).len() as int + enc_key("offer"@).len() as int + 1 + fld("from"@).len() as int + enc_str(from).len() as int + 1 + fld("to"@).len() as int + enc_str(to).len() as int + 1))
        }),
{
    reveal_strlit("from");
    reveal_strlit("offer");
    reveal_strlit("to");
    reveal_strlit("type");
    lemma_rt_offer_layout0(from, to);
    lemma_rt_offer_layout1(from, to);
    lemma_rt_offer_layout2(from, to);
    let m = MsgV::Offer { from, to };
    let t = spec_encode(m);
    assert(plain_seq("type"@));
    assert(plain_seq("offer"@));
    lemma_value_key(t, 1 + fld("type"@).len() as int, "offer"@);
    assert(spec_value_prim(t, 1 + fld("type"@).len() as int) == Some((PrimV::Str("offer"@), 1 + fld("type"@).len() as int + enc_key("offer"@).len() as int)));
    lemma_member(t, 1, true, "type"@, PrimV::Str("offer"@), 1 + fld("type"@).len() as int + enc_key("offer"@).len() as int);
    lemma_rt_offer_tail1(from, to);
    lemma_comma_then(t, 1 + fld("type"@).len() as int + enc_key("offer"@).len() as int);
    assert(spec_members(t, 1, true) == Some((seq![MemberV { key: "type"@, val: PrimV::Str("offer"@) }].add(seq![MemberV { key: "from"@, val: PrimV::Str(from) }].add(seq![MemberV { key: "to"@, val: PrimV::Str(to) }].add(Seq::<MemberV>::empty()))), 1 + fld("type"@).len() as int + enc_key("offer"@).len() as int + 1 + fld("from"@).len() as int + enc_str(from).len() as int + 1 + fld("to"@).len() as int + enc_str(to).len() as int + 1)));
}

#[verifier::rlimit(100)]
#[verifier::spinoff_prover]
proof fn lemma_rt_offer_tail1(from: Seq<char>, to: Seq<char>)
    ensures
        ({
            let t = spec_encode(MsgV::Offer { from, to });
            spec_members(t, 1 + fld("type"@).len() as int + enc_key("offer"@).len() as int + 1, false) == Some((seq![MemberV { key: "from"@, val: PrimV::Str(from) }].add(seq![MemberV { key: "to"@, val: PrimV::Str(to) }].add(Seq::<MemberV>::empty())), 1 + fld("type"@).len() as int + enc_key("offer"@).len() as int + 1 + fld("from"@).len() as int + enc_str(from).len() as int + 1 + fld("to"@).len() as int + enc_str(to).len() as int + 1))
        }),
{
    reveal_strlit("from");
    reveal_strlit("offer");
    reveal_strlit("to");
    reveal_strlit("type");
    lemma_rt_offer_layout0(from, to);
    lemma_rt_offer_layout1(from, to);
    lemma_rt_offer_layout2(from, to);
    let m = MsgV::Offer { from, to };
    let t = spec_encode(m);
    assert(plain_seq("from"@));
    lemma_value_str(t, 1 + fld("type"@).len() as int + enc_key("offer"@).len() as int + 1 + fld("from"@).len() as int, from);
    assert(spec_value_prim(t, 1 + fld("type"@).len() as int + enc_key("offer"@).len() as int + 1 + fld("from"@).len() as int) == Some((PrimV::Str(from), 1 + fld("type"@).len() as int + enc_key("offer"@).len() as int + 1 + fld("from"@).len() as int + enc_str(from).len() as int)));
    lemma_member(t, 1 + fld("type"@).len() as int + enc_key("offer"@).len() as int + 1, false, "from"@, PrimV::Str(from), 1 + fld("type"@).len() as int + enc_key("offer"@).len() as int + 1 + fld("from"@).len() as int + enc_str(from).len() as int);
    lemma_rt_offer_tail2(from, to);
    lemma_comma_then(t, 1 + fld("type"@).len() as int + enc_key("offer"@).len() as int + 1 + fld("from"@).len() as int + enc_str(from).len() as int);
    assert(spec_members(t, 1 + fld("type"@).len() as int + enc_key("offer"@).len() as int + 1, false) == Some((seq![MemberV { key: "from"@, val: PrimV::Str(from) }].add(seq![MemberV { key: "to"@, val: PrimV::Str(to) }].add(Seq::<MemberV>::empty())), 1 + fld("type"@).len() as int + enc_key("offer"@).len() as int + 1 + fld("from"@).len() as int + enc_str(from).len() as int + 1 + fld("to"@).len() as int + enc_str(to).len() as int + 1)));
}

#[verifier::rlimit(100)]
#[verifier::spinoff_prover]
proof fn lemma_rt_offer_tail2(from: Seq<char>, to: Seq<char>)
    ensures
        ({
            let t = spec_encode(MsgV::Offer { from, to });
            spec_members(t, 1 + fld("type"@).len() as int + enc_key("offer"@).len() as int + 1 + fld("from"@).len() as int + enc_str(from).len() as int + 1, false) == Some((seq![MemberV { key: "to"@, val: PrimV::Str(to) }].add(Seq::<MemberV>::empty()), 1 + fld("type"@).len() as int + enc_key("offer"@).len() as int + 1 + fld("from"@).len() as int + enc_str(from).len() as int + 1 + fld("to"@).len() as int + enc_str(to).len() as int + 1))
        }),
{
    reveal_strlit("from");
    reveal_strlit("offer");
    reveal_strlit("to");
    reveal_strlit("type");
    lemma_rt_offer_layout0(from, to);
    lemma_rt_offer_layout1(from, to);
    lemma_rt_offer_layout2(from, to);
    let m = MsgV::Offer { from, to };
    let t = spec_encode(m);
    assert(plain_seq("to"@));
    lemma_value_str(t, 1 + fld("type"@).len() as int + enc_key("offer"@).len() as int + 1 + fld("from"@).len() as int + enc_str(from).len() as int + 1 + fld("to"@).len() as int, to);
    assert(spec_value_prim(t, 1 + fld("type"@).len() as int + enc_key("offer"@).len() as int + 1 + fld("from"@).len() as int + enc_str(from).len() as int + 1 + fld("to"@).len() as int) == Some((PrimV::Str(to), 1 + fld("type"@).len() as int + enc_key("offer"@).len() as int + 1 + fld("from"@).len() as int + enc_str(from).len() as int + 1 + fld("to"@).len() as int + enc_str(to).len() as int)));
    lemma_member(t, 1 + fld("type"@).len() as int + enc_key("offer"@).len() as int + 1 + fld("from"@).len() as int + enc_str(from).len() as int + 1, false, "to"@, PrimV::Str(to), 1 + fld("type"@).len() as int + enc_key("offer"@).len() as int + 1 + fld("from"@).len() as int + enc_str(from).len() as int + 1 + fld("to"@).len() as int + enc_str(to).len() as int);
    lemma_close(t, 1 + fld("type"@).len() as int + enc_key("offer"@).len() as int + 1 + fld("from"@).len() as int + enc_str(from).len() as int + 1 + fld("to"@).len() as int + enc_str(to).len() as int);
    assert(spec_members(t, 1 + fld("type"@).len() as int + enc_key("offer"@).len() as int + 1 + fld("from"@).len() as int + enc_str(from).len() as int + 1, false) == Some((seq![MemberV { key: "to"@, val: PrimV::Str(to) }].add(Seq::<MemberV>::empty()), 1 + fld("type"@).len() as int + enc_key("offer"@).len() as int + 1 + fld("from"@).len() as int + enc_str(from).len() as int + 1 + fld("to"@).len() as int + enc_str(to).len() as int + 1)));
}
#[verifier::rlimit(100)]
#[verifier::spinoff_prover]
proof fn lemma_rt_offer_parse(from: Seq<char>, to: Seq<char>)
    ensures
        ({
            let t = spec_encode(MsgV::Offer { from, to });
            spec_decode(t) == spec_msg_of_members(t, offer_ms(from, to))
        }),
{
    lemma_rt_offer_layout0(from, to);
    lemma_rt_offer_layout1(from, to);
    lemma_rt_offer_layout2(from, to);
    lemma_rt_offer_tail0(from, to);
    let m = MsgV::Offer { from, to };
    let t = spec_encode(m);
    assert(!is_jws(t[0]));
    assert(spec_ws(t, 0) == 0);
    assert(spec_ws(t, t.len() as int) == t.len());
    assert(offer_ms(from, to) == seq![MemberV { key: "type"@, val: PrimV::Str("offer"@) }].add(seq![MemberV { key: "from"@, val: PrimV::Str(from) }].add(seq![MemberV { key: "to"@, val: PrimV::Str(to) }].add(Seq::<MemberV>::empty()))));
    assert(spec_decode(t) == spec_msg_of_members(t, offer_ms(from, to)));
}

#[verifier::rlimit(100)]
#[verifier::spinoff_prover]
proof fn lemma_rt_offer(from: Seq<char>, to: Seq<char>)
    ensures
        spec_decode(spec_encode(MsgV::Offer { from, to })) == Some(MsgV::Offer { from, to }),
{
    reveal_strlit("from");
    reveal_strlit("offer");
    reveal_strlit("to");
    reveal_strlit("type");
    lemma_rt_offer_parse(from, to);
    let m = MsgV::Offer { from, to };
    let t = spec_encode(m);
    let ms = offer_ms(from, to);
    let sfx1 = seq![MemberV { key: "from"@, val: PrimV::Str(from) }].add(seq![MemberV { key: "to"@, val: PrimV::Str(to) }].add(Seq::<MemberV>::empty()));
    let sfx2 = seq![MemberV { key: "to"@, val: PrimV::Str(to) }].add(Seq::<MemberV>::empty());
    assert(ms.drop_first() =~= sfx1);
    assert(sfx1.drop_first() =~= sfx2);
    assert("from"@ != "to"@) by {
        assert("from"@.len() != "to"@.len());
    }
    assert("type"@ != "from"@) by {
        assert("type"@[0] != "from"@[0]);
    }
    assert("type"@ != "to"@) by {
        assert("type"@.len() != "to"@.len());
    }
    assert(field_of(ms, "type"@) == Some(PrimV::Str("offer"@))) by {
        assert(ms[0] == MemberV { key: "type"@, val: PrimV::Str("offer"@) });
    }
    assert(field_of(ms, "from"@) == field_of(sfx1, "from"@)) by {
        assert(ms[0].key != "from"@);
    }
    assert(field_of(sfx1, "from"@) == Some(PrimV::Str(from))) by {
        assert(sfx1[0] == MemberV { key: "from"@, val: PrimV::Str(from) });
    }
    assert(field_of(ms, "to"@) == field_of(sfx1, "to"@)) by {
        assert(ms[0].key != "to"@);
    }
    assert(field_of(sfx1, "to"@) == field_of(sfx2, "to"@)) by {
        assert(sfx1[0].key != "to"@);
    }
    assert(field_of(sfx2, "to"@) == Some(PrimV::Str(to))) by {
        assert(sfx2[0] == MemberV { key: "to"@, val: PrimV::Str(to) });
    }
    assert(req_str(ms, "type"@) == Some("offer"@));
    assert(req_str(ms, "from"@) == Some(from));
    assert(req_str(ms, "to"@) == Some(to));
    assert(spec_msg_of_members(t, ms) == Some(m));
}

/// The member list of an encoded `answer` frame.
pub open spec fn answer_ms(from: Seq<char>, to: Seq<char>) -> Seq<MemberV> {
    seq![MemberV { key: "type"@, val: PrimV::Str("answer"@) }].add(seq![MemberV { key: "from"@, val: PrimV::Str(from) }].add(seq![MemberV { key: "to"@, val: PrimV::Str(to) }].add(Seq::<MemberV>::empty())))
}

#[verifier::rlimit(100)]
#[verifier::spinoff_prover]
proof fn lemma_rt_answer_layout0(from: Seq<char>, to: Seq<char>)
    ensures
        ({
            let t = spec_encode(MsgV::Answer { from, to });
            &&& t.len() as int == 1 + fld("type"@).len() as int + enc_key("answer"@).len() as int + 1 + fld("from"@).len() as int + enc_str(from).len() as int + 1 + fld("to"@).len() as int + enc_str(to).len() as int + 1
            &&& t[0] == '{'
            &&& t.subrange(1, 1 + fld("type"@).len() as int) == fld("type"@)
            &&& t.subrange(1 + fld("type"@).len() as int, 1 + fld("type"@).len() as int + enc_key("answer"@).len() as int) == enc_key("answer"@)
        }),
{
    let m = MsgV::Answer { from, to };
    let t = spec_encode(m);
    assert(t == seq!['{'].add(fld("type"@)).add(enc_key("answer"@)).add(seq![',']).add(fld("from"@)).add(enc_str(from)).add(seq![',']).add(fld("to"@)).add(enc_str(to)).add(seq!['}']));
    assert(t.len() as int == 1 + fld("type"@).len() as int + enc_key("answer"@).len() as int + 1 + fld("from"@).len() as int + enc_str(from).len() as int + 1 + fld("to"@).len() as int + enc_str(to).len() as int + 1);
    assert(t[0] == '{');
    assert(t.subrange(1, 1 + fld("type"@).len() as int) =~= fld("type"@));
    assert(t.subrange(1 + fld("type"@).len() as int, 1 + fld("type"@).len() as int + enc_key("answer"@).len() as int) =~= enc_key("answer"@));
}

#[verifier::rlimit(100)]
#[verifier::spinoff_prover]
proof fn lemma_rt_answer_layout1(from: Seq<char>, to: Seq<char>)
    ensures
        ({
            let t = spec_encode(MsgV::Answer { from, to });
            &&& t[1 + fld("type"@).len() as int + enc_key("answer"@).len() as int] == ','
            &&& t.subrange(1 + fld("type"@).len() as int + enc_key("answer"@).len() as int + 1, 1 + fld("type"@).len() as int + enc_key("answer"@).len() as int + 1 + fld("from"@).len() as int) == fld("from"@)
            &&& t.subrange(1 + fld("type"@).len() as int + enc_key("answer"@).len() as int + 1 + fld("from"@).len() as int, 1 + fld("type"@).len() as int + enc_key("answer"@).len() as int + 1 + fld("from"@).len() as int + enc_str(from).len() as int) == enc_str(from)
            &&& t[1 + fld("type"@).len() as int + enc_key("answer"@).len() as int + 1 + fld("from"@).len() as int + enc_str(from).len() as int] == ','
        }),
{
    let m = MsgV::Answer { from, to };
    let t = spec_encode(m);
    assert(t == seq!['{'].add(fld("type"@)).add(enc_key("answer"@)).add(seq![',']).add(fld("from"@)).add(enc_str(from)).add(seq![',']).add(fld("to"@)).add(enc_str(to)).add(seq!['}']));
    assert(t[1 + fld("type"@).len() as int + enc_key("answer"@).len() as int] == ',');
    assert(t.subrange(1 + fld("type"@).len() as int + enc_key("answer"@).len() as int + 1, 1 + fld("type"@).len() as int + enc_key("answer"@).len() as int + 1 + fld("from"@).len() as int) =~= fld("from"@));
    assert(t.subrange(1 + fld("type"@).len() as int + enc_key("answer"@).len() as int + 1 + fld("from"@).len() as int, 1 + fld("type"@).len() as int + enc_key("answer"@).len() as int + 1 + fld("from"@).len() as int + enc_str(from).len() as int) =~= enc_str(from));
    assert(t[1 + fld("type"@).len() as int + enc_key("answer"@).len() as int + 1 + fld("from"@).len() as int + enc_str(from).len() as int] == ',');
}

#[verifier::rlimit(100)]
#[verifier::spinoff_prover]
proof fn lemma_rt_answer_layout2(from: Seq<char>, to: Seq<char>)
    ensures
        ({
            let t = spec_encode(MsgV::Answer { from, to });
            &&& t.subrange(1 + fld("type"@).len() as int + enc_key("answer"@).len() as int + 1 + fld("from"@).len() as int + enc_str(from).len() as int + 1, 1 + fld("type"@).len() as int + enc_key("answer"@).len() as int + 1 + fld("from"@).len() as int + enc_str(from).len() as int + 1 + fld("to"@).len() as int) == fld("to"@)
            &&& t.subrange(1 + fld("type"@).len() as int + enc_key("answer"@).len() as int + 1 + fld("from"@).len() as int + enc_str(from).len() as int + 1 + fld("to"@).len() as int, 1 + fld("type"@).len() as int + enc_key("answer"@).len() as int + 1 + fld("from"@).len() as int + enc_str(from).len() as int + 1 + fld("to"@).len() as int + enc_str(to).len() as int) == enc_str(to)
            &&& t[1 + fld("type"@).len() as int + enc_key("answer"@).len() as int + 1 + fld("from"@).len() as int + enc_str(from).len() as int + 1 + fld("to"@).len() as int + enc_str(to).len() as int] == '}'
        }),
{
    let m = MsgV::Answer { from, to };
    let t = spec_encode(m);
    assert(t == seq!['{'].add(fld("type"@)).add(enc_key("answer"@)).add(seq![',']).add(fld("from"@)).add(enc_str(from)).add(seq![',']).add(fld("to"@)).add(enc_str(to)).add(seq!['}']));
    assert(t.subrange(1 + fld("type"@).len() as int + enc_key("answer"@).len() as int + 1 + fld("from"@).len() as int + enc_str(from).len() as int + 1, 1 + fld("type"@).len() as int + enc_key("answer"@).len() as int + 1 + fld("from"@).len() as int + enc_str(from).len() as int + 1 + fld("to"@).len() as int) =~= fld("to"@));
    assert(t.subrange(1 + fld("type"@).len() as int + enc_key("answer"@).len() as int + 1 + fld("from"@).len() as int + enc_str(from).len() as int + 1 + fld("to"@).len() as int, 1 + fld("type"@).len() as int + enc_key("answer"@).len() as int + 1 + fld("from"@).len() as int + enc_str(from).len() as int + 1 + fld("to"@).len() as int + enc_str(to).len() as int) =~= enc_str(to));
    assert(t[1 + fld("type"@).len() as int + enc_key("answer"@).len() as int + 1 + fld("from"@).len() as int + enc_str(from).len() as int + 1 + fld("to"@).len() as int + enc_str(to).len() as int] == '}');
}

#[verifier::rlimit(100)]
#[verifier::spinoff_prover]
proof fn lemma_rt_answer_tail0(from: Seq<char>, to: Seq<char>)
    ensures
        ({
            let t = spec_encode(MsgV::Answer { from, to });
            spec_members(t, 1, true) == Some((seq![MemberV { key: "type"@, val: PrimV::Str("answer"@) }].add(seq![MemberV { key: "from"@, val: PrimV::Str(from) }].add(seq![MemberV { key: "to"@, val: PrimV::Str(to) }].add(Seq::<MemberV>::empty()))), 1 + fld("type"@).len() as int + enc_key("answer"@).len() as int + 1 + fld("from"@).len() as int + enc_str(from).len() as int + 1 + fld("to"@).len() as int + enc_str(to).len() as int + 1))
        }),
{
    reveal_strlit("answer");
    reveal_strlit("from");
    reveal_strlit("to");
    reveal_strlit("type");
    lemma_rt_answer_layout0(from, to);
    lemma_rt_answer_layout1(from, to);
    lemma_rt_answer_layout2(from, to);
    let m = MsgV::Answer { from, to };
    let t = spec_encode(m);
    assert(plain_seq("type"@));
    assert(plain_seq("answer"@));
    lemma_value_key(t, 1 + fld("type"@).len() as int, "answer"@);
    assert(spec_value_prim(t, 1 + fld("type"@).len() as int) == Some((PrimV::Str("answer"@), 1 + fld("type"@).len() as int + enc_key("answer"@).len() as int)));
    lemma_member(t, 1, true, "type"@, PrimV::Str("answer"@), 1 + fld("type"@).len() as int + enc_key("answer"@).len() as int);
    lemma_rt_answer_tail1(from, to);
    lemma_comma_then(t, 1 + fld("type"@).len() as int + enc_key("answer"@).len() as int);
    assert(spec_members(t, 1, true) == Some((seq![MemberV { key: "type"@, val: PrimV::Str("answer"@) }].add(seq![MemberV { key: "from"@, val: PrimV::Str(from) }].add(seq![MemberV { key: "to"@, val: PrimV::Str(to) }].add(Seq::<MemberV>::empty()))), 1 + fld("type"@).len() as int + enc_key("answer"@).len() as int + 1 + fld("from"@).len() as int + enc_str(from).len() as int + 1 + fld("to"@).len() as int + enc_str(to).len() as int + 1)));
}

#[verifier::rlimit(100)]
#[verifier::spinoff_prover]
proof fn lemma_rt_answer_tail1(from: Seq<char>, to: Seq<char>)
    ensures
        ({
            let t = spec_encode(MsgV::Answer { from, to });
            spec_members(t, 1 + fld("type"@).len() as int + enc_key("answer"@).len() as int + 1, false) == Some((seq![MemberV { key: "from"@, val: PrimV::Str(from) }].add(seq![MemberV { key: "to"@, val: PrimV::Str(to) }].add(Seq::<MemberV>::empty())), 1 + fld("type"@).len() as int + enc_key("answer"@).len() as int + 1 + fld("from"@).len() as int + enc_str(from).len() as int + 1 + fld("to"@).len() as int + enc_str(to).len() as int + 1))
        }),
{
    reveal_strlit("answer");
    reveal_strlit("from");
    reveal_strlit("to");
    reveal_strlit("type");
    lemma_rt_answer_layout0(from, to);
    lemma_rt_answer_layout1(from, to);
    lemma_rt_answer_layout2(from, to);
    let m = MsgV::Answer { from, to };
    let t = spec_encode(m);
    assert(plain_seq("from"@));
    lemma_value_str(t, 1 + fld("type"@).len() as int + enc_key("answer"@).len() as int + 1 + fld("from"@).len() as int, from);
    assert(spec_value_prim(t, 1 + fld("type"@).len() as int + enc_key("answer"@).len() as int + 1 + fld("from"@).len() as int) == Some((PrimV::Str(from), 1 + fld("type"@).len() as int + enc_key("answer"@).len() as int + 1 + fld("from"@).len() as int + enc_str(from).len() as int)));
    lemma_member(t, 1 + fld("type"@).len() as int + enc_key("answer"@).len() as int + 1, false, "from"@, PrimV::Str(from), 1 + fld("type"@).len() as int + enc_key("answer"@).len() as int + 1 + fld("from"@).len() as int + enc_str(from).len() as int);
    lemma_rt_answer_tail2(from, to);
    lemma_comma_then(t, 1 + fld("type"@).len() as int + enc_key("answer"@).len() as int + 1 + fld("from"@).len() as int + enc_str(from).len() as int);
    assert(spec_members(t, 1 + fld("type"@).len() as int + enc_key("answer"@).len() as int + 1, false) == Some((seq![MemberV { key: "from"@, val: PrimV::Str(from) }].add(seq![MemberV { key: "to"@, val: PrimV::Str(to) }].add(Seq::<MemberV>::empty())), 1 + fld("type"@).len() as int + enc_key("answer"@).len() as int + 1 + fld("from"@).len() as int + enc_str(from).len() as int + 1 + fld("to"@).len() as int + enc_str(to).len() as int + 1)));
}

#[verifier::rlimit(100)]
#[verifier::spinoff_prover]
proof fn lemma_rt_answer_tail2(from: Seq<char>, to: Seq<char>)
    ensures
        ({
            let t = spec_encode(MsgV::Answer { from, to });
            spec_members(t, 1 + fld("type"@).len() as int + enc_key("answer"@).len() as int + 1 + fld("from"@).len() as int + enc_str(from).len() as int + 1, false) == Some((seq![MemberV { key: "to"@, val: PrimV::Str(to) }].add(Seq::<MemberV>::empty()), 1 + fld("type"@).len() as int + enc_key("answer"@).len() as int + 1 + fld("from"@).len() as int + enc_str(from).len() as int + 1 + fld("to"@).len() as int + enc_str(to).len() as int + 1))
        }),
{
    reveal_strlit("answer");
    reveal_strlit("from");
    reveal_strlit("to");
    reveal_strlit("type");
    lemma_rt_answer_layout0(from, to);
    lemma_rt_answer_layout1(from, to);
    lemma_rt_answer_layout2(from, to);
    let m = MsgV::Answer { from, to };
    let t = spec_encode(m);
    assert(plain_seq("to"@));
    lemma_value_str(t, 1 + fld("type"@).len() as int + enc_key("answer"@).len() as int + 1 + fld("from"@).len() as int + enc_str(from).len() as int + 1 + fld("to"@).len() as int, to);
    assert(spec_value_prim(t, 1 + fld("type"@).len() as int + enc_key("answer"@).len() as int + 1 + fld("from"@).len() as int + enc_str(from).len() as int + 1 + fld("to"@).len() as int) == Some((PrimV::Str(to), 1 + fld("type"@).len() as int + enc_key("answer"@).len() as int + 1 + fld("from"@).len() as int + enc_str(from).len() as int + 1 + fld("to"@).len() as int + enc_str(to).len() as int)));
    lemma_member(t, 1 + fld("type"@).len() as int + enc_key("answer"@).len() as int + 1 + fld("from"@).len() as int + enc_str(from).len() as int + 1, false, "to"@, PrimV::Str(to), 1 + fld("type"@).len() as int + enc_key("answer"@).len() as int + 1 + fld("from"@).len() as int + enc_str(from).len() as int + 1 + fld("to"@).len() as int + enc_str(to).len() as int);
    lemma_close(t, 1 + fld("type"@).len() as int + enc_key("answer"@).len() as int + 1 + fld("from"@).len() as int + enc_str(from).len() as int + 1 + fld("to"@).len() as int + enc_str(to).len() as int);
    assert(spec_members(t, 1 + fld("type"@).len() as int + enc_key("answer"@).len() as int + 1 + fld("from"@).len() as int + enc_str(from).len() as int + 1, false) == Some((seq![MemberV { key: "to"@, val: PrimV::Str(to) }].add(Seq::<MemberV>::empty()), 1 + fld("type"@).len() as int + enc_key("answer"@).len() as int + 1 + fld("from"@).len() as int + enc_str(from).len() as int + 1 + fld("to"@).len() as int + enc_str(to).len() as int + 1)));
}
#[verifier::rlimit(100)]
#[verifier::spinoff_prover]
proof fn lemma_rt_answer_parse(from: Seq<char>, to: Seq<char>)
    ensures
        ({
            let t = spec_encode(MsgV::Answer { from, to });
            spec_decode(t) == spec_msg_of_members(t, answer_ms(from, to))
        }),
{
    lemma_rt_answer_layout0(from, to);
    lemma_rt_answer_layout1(from, to);
    lemma_rt_answer_layout2(from, to);
    lemma_rt_answer_tail0(from, to);
    let m = MsgV::Answer { from, to };
    let t = spec_encode(m);
    assert(!is_jws(t[0]));
    assert(spec_ws(t, 0) == 0);
    assert(spec_ws(t, t.len() as int) == t.len());
    assert(answer_ms(from, to) == seq![MemberV { key: "type"@, val: PrimV::Str("answer"@) }].add(seq![MemberV { key: "from"@, val: PrimV::Str(from) }].add(seq![MemberV { key: "to"@, val: PrimV::Str(to) }].add(Seq::<MemberV>::empty()))));
    assert(spec_decode(t) == spec_msg_of_members(t, answer_ms(from, to)));
}

#[verifier::rlimit(100)]
#[verifier::spinoff_prover]
proof fn lemma_rt_answer(from: Seq<char>, to: Seq<char>)
    ensures
        spec_decode(spec_encode(MsgV::Answer { from, to })) == Some(MsgV::Answer { from, to }),
{
    reveal_strlit("answer");
    reveal_strlit("from");
    reveal_strlit("offer");
    reveal_strlit("to");
    reveal_strlit("type");
    lemma_rt_answer_parse(from, to);
    let m = MsgV::Answer { from, to };
    let t = spec_encode(m);
    let ms = answer_ms(from, to);
    let sfx1 = seq![MemberV { key: "from"@, val: PrimV::Str(from) }].add(seq![MemberV { key: "to"@, val: PrimV::Str(to) }].add(Seq::<MemberV>::empty()));
    let sfx2 = seq![MemberV { key: "to"@, val: PrimV::Str(to) }].add(Seq::<MemberV>::empty());
    assert(ms.drop_first() =~= sfx1);
    assert(sfx1.drop_first() =~= sfx2);
    assert("from"@ != "to"@) by {
        assert("from"@.len() != "to"@.len());
    }
    assert("type"@ != "from"@) by {
        assert("type"@[0] != "from"@[0]);
    }
    assert("type"@ != "to"@) by {
        assert("type"@.len() != "to"@.len());
    }
    assert("answer"@ != "offer"@) by {
        assert("answer"@.len() != "offer"@.len());
    }
    assert(field_of(ms, "type"@) == Some(PrimV::Str("answer"@))) by {
        assert(ms[0] == MemberV { key: "type"@, val: PrimV::Str("answer"@) });
    }
    assert(field_of(ms, "from"@) == field_of(sfx1, "from"@)) by {
        assert(ms[0].key != "from"@);
    }
    assert(field_of(sfx1, "from"@) == Some(PrimV::Str(from))) by {
        assert(sfx1[0] == MemberV { key: "from"@, val: PrimV::Str(from) });
    }
    assert(field_of(ms, "to"@) == field_of(sfx1, "to"@)) by {
        assert(ms[0].key != "to"@);
    }
    assert(field_of(sfx1, "to"@) == field_of(sfx2, "to"@)) by {
        assert(sfx1[0].key != "to"@);
    }
    assert(field_of(sfx2, "to"@) == Some(PrimV::Str(to))) by {
        assert(sfx2[0] == MemberV { key: "to"@, val: PrimV::Str(to) });
    }
    assert(req_str(ms, "type"@) == Some("answer"@));
    assert(req_str(ms, "from"@) == Some(from));
    assert(req_str(ms, "to"@) == Some(to));
    assert(spec_msg_of_members(t, ms) == Some(m));
}

/// The member list of an encoded `ice` frame.
pub open spec fn ice_ms(from: Seq<char>, to: Seq<char>) -> Seq<MemberV> {
    seq![MemberV { key: "type"@, val: PrimV::Str("ice"@) }].add(seq![MemberV { key: "from"@, val: PrimV::Str(from) }].add(seq![MemberV { key: "to"@, val: PrimV::Str(to) }].add(Seq::<MemberV>::empty())))
}

#[verifier::rlimit(100)]
#[verifier::spinoff_prover]
proof fn lemma_rt_ice_layout0(from: Seq<char>, to: Seq<char>)
    ensures
        ({
            let t = spec_encode(MsgV::Ice { from, to });
            &&& t.len() as int == 1 + fld("type"@).len() as int + enc_key("ice"@).len() as int + 1 + fld("from"@).len() as int + enc_str(from).len() as int + 1 + fld("to"@).len() as int + enc_str(to).len() as int + 1
            &&& t[0] == '{'
            &&& t.subrange(1, 1 + fld("type"@).len() as int) == fld("type"@)
            &&& t.subrange(1 + fld("type"@).len() as int, 1 + fld("type"@).len() as int + enc_key("ice"@).len() as int) == enc_key("ice"@)
        }),
{
    let m = MsgV::Ice { from, to };
    let t = spec_encode(m);
    assert(t == seq!['{'].add(fld("type"@)).add(enc_key("ice"@)).add(seq![',']).add(fld("from"@)).add(enc_str(from)).add(seq![',']).add(fld("to"@)).add(enc_str(to)).add(seq!['}']));
    assert(t.len() as int == 1 + fld("type"@).len() as int + enc_key("ice"@).len() as int + 1 + fld("from"@).len() as int + enc_str(from).len() as int + 1 + fld("to"@).len() as int + enc_str(to).len() as int + 1);
    assert(t[0] == '{');
    assert(t.subrange(1, 1 + fld("type"@).len() as int) =~= fld("type"@));
    assert(t.subrange(1 + fld("type"@).len() as int, 1 + fld("type"@).len() as int + enc_key("ice"@).len() as int) =~= enc_key("ice"@));
}

#[verifier::rlimit(100)]
#[verifier::spinoff_prover]
proof fn lemma_rt_ice_layout1(from: Seq<char>, to: Seq<char>)
    ensures
        ({
            let t = spec_encode(MsgV::Ice { from, to });
            &&& t[1 + fld("type"@).len() as int + enc_key("ice"@).len() as int] == ','
            &&& t.subrange(1 + fld("type"@).len() as int + enc_key("ice"@).len() as int + 1, 1 + fld("type"@).len() as int + enc_key("ice"@).len() as int + 1 + fld("from"@).len() as int) == fld("from"@)
            &&& t.subrange(1 + fld("type"@).len() as int + enc_key("ice"@).len() as int + 1 + fld("from"@).len() as int, 1 + fld("type"@).len() as int + enc_key("ice"@).len() as int + 1 + fld("from"@).len() as int + enc_str(from).len() as int) == enc_str(from)
            &&& t[1 + fld("type"@).len() as int + enc_key("ice"@).len() as int + 1 + fld("from"@).len() as int + enc_str(from).len() as int] == ','
        }),
{
    let m = MsgV::Ice { from, to };
    let t = spec_encode(m);
    assert(t == seq!['{'].add(fld("type"@)).add(enc_key("ice"@)).add(seq![',']).add(fld("from"@)).add(enc_str(from)).add(seq![',']).add(fld("to"@)).add(enc_str(to)).add(seq!['}']));
    assert(t[1 + fld("type"@).len() as int + enc_key("ice"@).len() as int] == ',');
    assert(t.subrange(1 + fld("type"@).len() as int + enc_key("ice"@).len() as int + 1, 1 + fld("type"@).len() as int + enc_key("ice"@).len() as int + 1 + fld("from"@).len() as int) =~= fld("from"@));
    assert(t.subrange(1 + fld("type"@).len() as int + enc_key("ice"@).len() as int + 1 + fld("from"@).len() as int, 1 + fld("type"@).len() as int + enc_key("ice"@).len() as int + 1 + fld("from"@).len() as int + enc_str(from).len() as int) =~= enc_str(from));
    assert(t[1 + fld("type"@).len() as int + enc_key("ice"@).len() as int + 1 + fld("from"@).len() as int + enc_str(from).len() as int] == ',');
}

#[verifier::rlimit(100)]
#[verifier::spinoff_prover]
proof fn lemma_rt_ice_layout2(from: Seq<char>, to: Seq<char>)
    ensures
        ({
            let t = spec_encode(MsgV::Ice { from, to });
            &&& t.subrange(1 + fld("type"@).len() as int + enc_key("ice"@).len() as int + 1 + fld("from"@).len() as int + enc_str(from).len() as int + 1, 1 + fld("type"@).len() as int + enc_key("ice"@).len() as int + 1 + fld("from"@).len() as int + enc_str(from).len() as int + 1 + fld("to"@).len() as int) == fld("to"@)
            &&& t.subrange(1 + fld("type"@).len() as int + enc_key("ice"@).len() as int + 1 + fld("from"@).len() as int + enc_str(from).len() as int + 1 + fld("to"@).len() as int, 1 + fld("type"@).len() as int + enc_key("ice"@).len() as int + 1 + fld("from"@).len() as int + enc_str(from).len() as int + 1 + fld("to"@).len() as int + enc_str(to).len() as int) == enc_str(to)
            &&& t[1 + fld("type"@).len() as int + enc_key("ice"@).len() as int + 1 + fld("from"@).len() as int + enc_str(from).len() as int + 1 + fld("to"@).len() as int + enc_str(to).len() as int] == '}'
        }),
{
    let m = MsgV::Ice { from, to };
    let t = spec_encode(m);
    assert(t == seq!['{'].add(fld("type"@)).add(enc_key("ice"@)).add(seq![',']).add(fld("from"@)).add(enc_str(from)).add(seq![',']).add(fld("to"@)).add(enc_str(to)).add(seq!['}']));
    assert(t.subrange(1 + fld("type"@).len() as int + enc_key("ice"@).len() as int + 1 + fld("from"@).len() as int + enc_str(from).len() as int + 1, 1 + fld("type"@).len() as int + enc_key("ice"@).len() as int + 1 + fld("from"@).len() as int + enc_str(from).len() as int + 1 + fld("to"@).len() as int) =~= fld("to"@));
    assert(t.subrange(1 + fld("type"@).len() as int + enc_key("ice"@).len() as int + 1 + fld("from"@).len() as int + enc_str(from).len() as int + 1 + fld("to"@).len() as int, 1 + fld("type"@).len() as int + enc_key("ice"@).len() as int + 1 + fld("from"@).len() as int + enc_str(from).len() as int + 1 + fld("to"@).len() as int + enc_str(to).len() as int) =~= enc_str(to));
    assert(t[1 + fld("type"@).len() as int + enc_key("ice"@).len() as int + 1 + fld("from"@).len() as int + enc_str(from).len() as int + 1 + fld("to"@).len() as int + enc_str(to).len() as int] == '}');
}

#[verifier::rlimit(100)]
#[verifier::spinoff_prover]
proof fn lemma_rt_ice_tail0(from: Seq<char>, to: Seq<char>)
    ensures
        ({
            let t = spec_encode(MsgV::Ice { from, to });
            spec_members(t, 1, true) == Some((seq![MemberV { key: "type"@, val: PrimV::Str("ice"@) }].add(seq![MemberV { key: "from"@, val: PrimV::Str(from) }].add(seq![MemberV { key: "to"@, val: PrimV::Str(to) }].add(Seq::<MemberV>::empty()))), 1 + fld("type"@).len() as int + enc_key("ice"@).len() as int + 1 + fld("from"@).len() as int + enc_str(from).len() as int + 1 + fld("to"@).len() as int + enc_str(to).len() as int + 1))
        }),
{
    reveal_strlit("from");
    reveal_strlit("ice");
    reveal_strlit("to");
    reveal_strlit("type");
    lemma_rt_ice_layout0(from, to);
    lemma_rt_ice_layout1(from, to);
    lemma_rt_ice_layout2(from, to);
    let m = MsgV::Ice { from, to };
    let t = spec_encode(m);
    assert(plain_seq("type"@));
    assert(plain_seq("ice"@));
    lemma_value_key(t, 1 + fld("type"@).len() as int, "ice"@);
    assert(spec_value_prim(t, 1 + fld("type"@).len() as int) == Some((PrimV::Str("ice"@), 1 + fld("type"@).len() as int + enc_key("ice"@).len() as int)));
    lemma_member(t, 1, true, "type"@, PrimV::Str("ice"@), 1 + fld("type"@).len() as int + enc_key("ice"@).len() as int);
    lemma_rt_ice_tail1(from, to);
    lemma_comma_then(t, 1 + fld("type"@).len() as int + enc_key("ice"@).len() as int);
    assert(spec_members(t, 1, true) == Some((seq![MemberV { key: "type"@, val: PrimV::Str("ice"@) }].add(seq![MemberV { key: "from"@, val: PrimV::Str(from) }].add(seq![MemberV { key: "to"@, val: PrimV::Str(to) }].add(Seq::<MemberV>::empty()))), 1 + fld("type"@).len() as int + enc_key("ice"@).len() as int + 1 + fld("from"@).len() as int + enc_str(from).len() as int + 1 + fld("to"@).len() as int + enc_str(to).len() as int + 1)));
}

#[verifier::rlimit(100)]
#[verifier::spinoff_prover]
proof fn lemma_rt_ice_tail1(from: Seq<char>, to: Seq<char>)
    ensures
        ({
            let t = spec_encode(MsgV::Ice { from, to });
            spec_members(t, 1 + fld("type"@).len() as int + enc_key("ice"@).len() as int + 1, false) == Some((seq![MemberV { key: "from"@, val: PrimV::Str(from) }].add(seq![MemberV { key: "to"@, val: PrimV::Str(to) }].add(Seq::<MemberV>::empty())), 1 + fld("type"@).len() as int + enc_key("ice"@).len() as int + 1 + fld("from"@).len() as int + enc_str(from).len() as int + 1 + fld("to"@).len() as int + enc_str(to).len() as int + 1))
        }),
{
    reveal_strlit("from");
    reveal_strlit("ice");
    reveal_strlit("to");
    reveal_strlit("type");
    lemma_rt_ice_layout0(from, to);
    lemma_rt_ice_layout1(from, to);
    lemma_rt_ice_layout2(from, to);
    let m = MsgV::Ice { from, to };
    let t = spec_encode(m);
    assert(plain_seq("from"@));
    lemma_value_str(t, 1 + fld("type"@).len() as int + enc_key("ice"@).len() as int + 1 + fld("from"@).len() as int, from);
    assert(spec_value_prim(t, 1 + fld("type"@).len() as int + enc_key("ice"@).len() as int + 1 + fld("from"@).len() as int) == Some((PrimV::Str(from), 1 + fld("type"@).len() as int + enc_key("ice"@).len() as int + 1 + fld("from"@).len() as int + enc_str(from).len() as int)));
    lemma_member(t, 1 + fld("type"@).len() as int + enc_key("ice"@).len() as int + 1, false, "from"@, PrimV::Str(from), 1 + fld("type"@).len() as int + enc_key("ice"@).len() as int + 1 + fld("from"@).len() as int + enc_str(from).len() as int);
    lemma_rt_ice_tail2(from, to);
    lemma_comma_then(t, 1 + fld("type"@).len() as int + enc_key("ice"@).len() as int + 1 + fld("from"@).len() as int + enc_str(from).len() as int);
    assert(spec_members(t, 1 + fld("type"@).len() as int + enc_key("ice"@).len() as int + 1, false) == Some((seq![MemberV { key: "from"@, val: PrimV::Str(from) }].add(seq![MemberV { key: "to"@, val: PrimV::Str(to) }].add(Seq::<MemberV>::empty())), 1 + fld("type"@).len() as int + enc_key("ice"@).len() as int + 1 + fld("from"@).len() as int + enc_str(from).len() as int + 1 + fld("to"@).len() as int + enc_str(to).len() as int + 1)));
}

#[verifier::rlimit(100)]
#[verifier::spinoff_prover]
proof fn lemma_rt_ice_tail2(from: Seq<char>, to: Seq<char>)
    ensures
        ({
            let t = spec_encode(MsgV::Ice { from, to });
            spec_members(t, 1 + fld("type"@).len() as int + enc_key("ice"@).len() as int + 1 + fld("from"@).len() as int + enc_str(from).len() as int + 1, false) == Some((seq![MemberV { key: "to"@, val: PrimV::Str(to) }].add(Seq::<MemberV>::empty()), 1 + fld("type"@).len() as int + enc_key("ice"@).len() as int + 1 + fld("from"@).len() as int + enc_str(from).len() as int + 1 + fld("to"@).len() as int + enc_str(to).len() as int + 1))
        }),
{
    reveal_strlit("from");
    reveal_strlit("ice");
    reveal_strlit("to");
    reveal_strlit("type");
    lemma_rt_ice_layout0(from, to);
    lemma_rt_ice_layout1(from, to);
    lemma_rt_ice_layout2(from, to);
    let m = MsgV::Ice { from, to };
    let t = spec_encode(m);
    assert(plain_seq("to"@));
    lemma_value_str(t, 1 + fld("type"@).len() as int + enc_key("ice"@).len() as int + 1 + fld("from"@).len() as int + enc_str(from).len() as int + 1 + fld("to"@).len() as int, to);
    assert(spec_value_prim(t, 1 + fld("type"@).len() as int + enc_key("ice"@).len() as int + 1 + fld("from"@).len() as int + enc_str(from).len() as int + 1 + fld("to"@).len() as int) == Some((PrimV::Str(to), 1 + fld("type"@).len() as int + enc_key("ice"@).len() as int + 1 + fld("from"@).len() as int + enc_str(from).len() as int + 1 + fld("to"@).len() as int + enc_str(to).len() as int)));
    lemma_member(t, 1 + fld("type"@).len() as int + enc_key("ice"@).len() as int + 1 + fld("from"@).len() as int + enc_str(from).len() as int + 1, false, "to"@, PrimV::Str(to), 1 + fld("type"@).len() as int + enc_key("ice"@).len() as int + 1 + fld("from"@).len() as int + enc_str(from).len() as int + 1 + fld("to"@).len() as int + enc_str(to).len() as int);
    lemma_close(t, 1 + fld("type"@).len() as int + enc_key("ice"@).len() as int + 1 + fld("from"@).len() as int + enc_str(from).len() as int + 1 + fld("to"@).len() as int + enc_str(to).len() as int);
    assert(spec_members(t, 1 + fld("type"@).len() as int + enc_key("ice"@).len() as int + 1 + fld("from"@).len() as int + enc_str(from).len() as int + 1, false) == Some((seq![MemberV { key: "to"@, val: PrimV::Str(to) }].add(Seq::<MemberV>::empty()), 1 + fld("type"@).len() as int + enc_key("ice"@).len() as int + 1 + fld("from"@).len() as int + enc_str(from).len() as int + 1 + fld("to"@).len() as int + enc_str(to).len() as int + 1)));
}
#[verifier::rlimit(100)]
#[verifier::spinoff_prover]
proof fn lemma_rt_ice_parse(from: Seq<char>, to: Seq<char>)
    ensures
        ({
            let t = spec_encode(MsgV::Ice { from, to });
            spec_decode(t) == spec_msg_of_members(t, ice_ms(from, to))
        }),
{
    lemma_rt_ice_layout0(from, to);
    lemma_rt_ice_layout1(from, to);
    lemma_rt_ice_layout2(from, to);
    lemma_rt_ice_tail0(from, to);
    let m = MsgV::Ice { from, to };
    let t = spec_encode(m);
    assert(!is_jws(t[0]));
    assert(spec_ws(t, 0) == 0);
    assert(spec_ws(t, t.len() as int) == t.len());
    assert(ice_ms(from, to) == seq![MemberV { key: "type"@, val: PrimV::Str("ice"@) }].add(seq![MemberV { key: "from"@, val: PrimV::Str(from) }].add(seq![MemberV { key: "to"@, val: PrimV::Str(to) }].add(Seq::<MemberV>::empty()))));
    assert(spec_decode(t) == spec_msg_of_members(t, ice_ms(from, to)));
}

#[verifier::rlimit(100)]
#[verifier::spinoff_prover]
proof fn lemma_rt_ice(from: Seq<char>, to: Seq<char>)
    ensures
        spec_decode(spec_encode(MsgV::Ice { from, to })) == Some(MsgV::Ice { from, to }),
{
    reveal_strlit("answer");
    reveal_strlit("from");
    reveal_strlit("ice");
    reveal_strlit("offer");
    reveal_strlit("to");
    reveal_strlit("type");
    lemma_rt_ice_parse(from, to);
    let m = MsgV::Ice { from, to };
    let t = spec_encode(m);
    let ms = ice_ms(from, to);
    let sfx1 = seq![MemberV { key: "from"@, val: PrimV::Str(from) }].add(seq![MemberV { key: "to"@, val: PrimV::Str(to) }].add(Seq::<MemberV>::empty()));
    let sfx2 = seq![MemberV { key: "to"@, val: PrimV::Str(to) }].add(Seq::<MemberV>::empty());
    assert(ms.drop_first() =~= sfx1);
    assert(sfx1.drop_first() =~= sfx2);
    assert("from"@ != "to"@) by {
        assert("from"@.len() != "to"@.len());
    }
    assert("type"@ != "from"@) by {
        assert("type"@[0] != "from"@[0]);
    }
    assert("type"@ != "to"@) by {
        assert("type"@.len() != "to"@.len());
    }
    assert("ice"@ != "offer"@) by {
        assert("ice"@.len() != "offer"@.len());
    }
    assert("ice"@ != "answer"@) by {
        assert("ice"@.len() != "answer"@.len());
    }
    assert(field_of(ms, "type"@) == Some(PrimV::Str("ice"@))) by {
        assert(ms[0] == MemberV { key: "type"@, val: PrimV::Str("ice"@) });
    }
    assert(field_of(ms, "from"@) == field_of(sfx1, "from"@)) by {
        assert(ms[0].key != "from"@);
    }
    assert(field_of(sfx1, "from"@) == Some(PrimV::Str(from))) by {
        assert(sfx1[0] == MemberV { key: "from"@, val: PrimV::Str(from) });
    }
    assert(field_of(ms, "to"@) == field_of(sfx1, "to"@)) by {
        assert(ms[0].key != "to"@);
    }
    assert(field_of(sfx1, "to"@) == field_of(sfx2, "to"@)) by {
        assert(sfx1[0].key != "to"@);
    }
    assert(field_of(sfx2, "to"@) == Some(PrimV::Str(to))) by {
        assert(sfx2[0] == MemberV { key: "to"@, val: PrimV::Str(to) });
    }
    assert(req_str(ms, "type"@) == Some("ice"@));
    assert(req_str(ms, "from"@) == Some(from));
    assert(req_str(ms, "to"@) == Some(to));
    assert(spec_msg_of_members(t, ms) == Some(m));
}

/// The member list of an encoded `join` frame.
pub open spec fn join_ms(from: Seq<char>, room: Seq<char>) -> Seq<MemberV> {
    seq![MemberV { key: "type"@, val: PrimV::Str("join"@) }].add(seq![MemberV { key: "from"@, val: PrimV::Str(from) }].add(seq![MemberV { key: "room"@, val: PrimV::Str(room) }].add(Seq::<MemberV>::empty())))
}

#[verifier::rlimit(100)]
#[verifier::spinoff_prover]
proof fn lemma_rt_join_layout0(from: Seq<char>, room: Seq<char>)
    ensures
        ({
            let t = spec_encode(MsgV::Join { from, room });
            &&& t.len() as int == 1 + fld("type"@).len() as int + enc_key("join"@).len() as int + 1 + fld("from"@).len() as int + enc_str(from).len() as int + 1 + fld("room"@).len() as int + enc_str(room).len() as int + 1
            &&& t[0] == '{'
            &&& t.subrange(1, 1 + fld("type"@).len() as int) == fld("type"@)
            &&& t.subrange(1 + fld("type"@).len() as int, 1 + fld("type"@).len() as int + enc_key("join"@).len() as int) == enc_key("join"@)
        }),
{
    let m = MsgV::Join { from, room };
    let t = spec_encode(m);
    assert(t == seq!['{'].add(fld("type"@)).add(enc_key("join"@)).add(seq![',']).add(fld("from"@)).add(enc_str(from)).add(seq![',']).add(fld("room"@)).add(enc_str(room)).add(seq!['}']));
    assert(t.len() as int == 1 + fld("type"@).len() as int + enc_key("join"@).len() as int + 1 + fld("from"@).len() as int + enc_str(from).len() as int + 1 + fld("room"@).len() as int + enc_str(room).len() as int + 1);
    assert(t[0] == '{');
    assert(t.subrange(1, 1 + fld("type"@).len() as int) =~= fld("type"@));
    assert(t.subrange(1 + fld("type"@).len() as int, 1 + fld("type"@).len() as int + enc_key("join"@).len() as int) =~= enc_key("join"@));
}

#[verifier::rlimit(100)]
#[verifier::spinoff_prover]
proof fn lemma_rt_join_layout1(from: Seq<char>, room: Seq<char>)
    ensures
        ({
            let t = spec_encode(MsgV::Join { from, room });
            &&& t[1 + fld("type"@).len() as int + enc_key("join"@).len() as int] == ','
            &&& t.subrange(1 + fld("type"@).len() as int + enc_key("join"@).len() as int + 1, 1 + fld("type"@).len() as int + enc_key("join"@).len() as int + 1 + fld("from"@).len() as int) == fld("from"@)
            &&& t.subrange(1 + fld("type"@).len() as int + enc_key("join"@).len() as int + 1 + fld("from"@).len() as int, 1 + fld("type"@).len() as int + enc_key("join"@).len() as int + 1 + fld("from"@).len() as int + enc_str(from).len() as int) == enc_str(from)
            &&& t[1 + fld("type"@).len() as int + enc_key("join"@).len() as int + 1 + fld("from"@).len() as int + enc_str(from).len() as int] == ','
        }),
{
    let m = MsgV::Join { from, room };
    let t = spec_encode(m);
    assert(t == seq!['{'].add(fld("type"@)).add(enc_key("join"@)).add(seq![',']).add(fld("from"@)).add(enc_str(from)).add(seq![',']).add(fld("room"@)).add(enc_str(room)).add(seq!['}']));
    assert(t[1 + fld("type"@).len() as int + enc_key("join"@).len() as int] == ',');
    assert(t.subrange(1 + fld("type"@).len() as int + enc_key("join"@).len() as int + 1, 1 + fld("type"@).len() as int + enc_key("join"@).len() as int + 1 + fld("from"@).len() as int) =~= fld("from"@));
    assert(t.subrange(1 + fld("type"@).len() as int + enc_key("join"@).len() as int + 1 + fld("from"@).len() as int, 1 + fld("type"@).len() as int + enc_key("join"@).len() as int + 1 + fld("from"@).len() as int + enc_str(from).len() as int) =~= enc_str(from));
    assert(t[1 + fld("type"@).len() as int + enc_key("join"@).len() as int + 1 + fld("from"@).len() as int + enc_str(from).len() as int] == ',');
}

#[verifier::rlimit(100)]
#[verifier::spinoff_prover]
proof fn lemma_rt_join_layout2(from: Seq<char>, room: Seq<char>)
    ensures
        ({
            let t = spec_encode(MsgV::Join { from, room });
            &&& t.subrange(1 + fld("type"@).len() as int + enc_key("join"@).len() as int + 1 + fld("from"@).len() as int + enc_str(from).len() as int + 1, 1 + fld("type"@).len() as int + enc_key("join"@).len() as int + 1 + fld("from"@).len() as int + enc_str(from).len() as int + 1 + fld("room"@).len() as int) == fld("room"@)
            &&& t.subrange(1 + fld("type"@).len() as int + enc_key("join"@).len() as int + 1 + fld("from"@).len() as int + enc_str(from).len() as int + 1 + fld("room"@).len() as int, 1 + fld("type"@).len() as int + enc_key("join"@).len() as int + 1 + fld("from"@).len() as int + enc_str(from).len() as int + 1 + fld("room"@).len() as int + enc_str(room).len() as int) == enc_str(room)
            &&& t[1 + fld("type"@).len() as int + enc_key("join"@).len() as int + 1 + fld("from"@).len() as int + enc_str(from).len() as int + 1 + fld("room"@).len() as int + enc_str(room).len() as int] == '}'
        }),
{
    let m = MsgV::Join { from, room };
    let t = spec_encode(m);
    assert(t == seq!['{'].add(fld("type"@)).add(enc_key("join"@)).add(seq![',']).add(fld("from"@)).add(enc_str(from)).add(seq![',']).add(fld("room"@)).add(enc_str(room)).add(seq!['}']));
    assert(t.subrange(1 + fld("type"@).len() as int + enc_key("join"@).len() as int + 1 + fld("from"@).len() as int + enc_str(from).len() as int + 1, 1 + fld("type"@).len() as int + enc_key("join"@).len() as int + 1 + fld("from"@).len() as int + enc_str(from).len() as int + 1 + fld("room"@).len() as int) =~= fld("room"@));
    assert(t.subrange(1 + fld("type"@).len() as int + enc_key("join"@).len() as int + 1 + fld("from"@).len() as int + enc_str(from).len() as int + 1 + fld("room"@).len() as int, 1 + fld("type"@).len() as int + enc_key("join"@).len() as int + 1 + fld("from"@).len() as int + enc_str(from).len() as int + 1 + fld("room"@).len() as int + enc_str(room).len() as int) =~= enc_str(room));
    assert(t[1 + fld("type"@).len() as int + enc_key("join"@).len() as int + 1 + fld("from"@).len() as int + enc_str(from).len() as int + 1 + fld("room"@).len() as int + enc_str(room).len() as int] == '}');
}

#[verifier::rlimit(100)]
#[verifier::spinoff_prover]
proof fn lemma_rt_join_tail0(from: Seq<char>, room: Seq<char>)
    ensures
        ({
            let t = spec_encode(MsgV::Join { from, room });
            spec_members(t, 1, true) == Some((seq![MemberV { key: "type"@, val: PrimV::Str("join"@) }].add(seq![MemberV { key: "from"@, val: PrimV::Str(from) }].add(seq![MemberV { key: "room"@, val: PrimV::Str(room) }].add(Seq::<MemberV>::empty()))), 1 + fld("type"@).len() as int + enc_key("join"@).len() as int + 1 + fld("from"@).len() as int + enc_str(from).len() as int + 1 + fld("room"@).len() as int + enc_str(room).len() as int + 1))
        }),
{
    reveal_strlit("from");
    reveal_strlit("join");
    reveal_strlit("room");
    reveal_strlit("type");
    lemma_rt_join_layout0(from, room);
    lemma_rt_join_layout1(from, room);
    lemma_rt_join_layout2(from, room);
    let m = MsgV::Join { from, room };
    let t = spec_encode(m);
    assert(plain_seq("type"@));
    assert(plain_seq("join"@));
    lemma_value_key(t, 1 + fld("type"@).len() as int, "join"@);
    assert(spec_value_prim(t, 1 + fld("type"@).len() as int) == Some((PrimV::Str("join"@), 1 + fld("type"@).len() as int + enc_key("join"@).len() as int)));
    lemma_member(t, 1, true, "type"@, PrimV::Str("join"@), 1 + fld("type"@).len() as int + enc_key("join"@).len() as int);
    lemma_rt_join_tail1(from, room);
    lemma_comma_then(t, 1 + fld("type"@).len() as int + enc_key("join"@).len() as int);
    assert(spec_members(t, 1, true) == Some((seq![MemberV { key: "type"@, val: PrimV::Str("join"@) }].add(seq![MemberV { key: "from"@, val: PrimV::Str(from) }].add(seq![MemberV { key: "room"@, val: PrimV::Str(room) }].add(Seq::<MemberV>::empty()))), 1 + fld("type"@).len() as int + enc_key("join"@).len() as int + 1 + fld("from"@).len() as int + enc_str(from).len() as int + 1 + fld("room"@).len() as int + enc_str(room).len() as int + 1)));
}

#[verifier::rlimit(100)]
#[verifier::spinoff_prover]
proof fn lemma_rt_join_tail1(from: Seq<char>, room: Seq<char>)
    ensures
        ({
            let t = spec_encode(MsgV::Join { from, room });
            spec_members(t, 1 + fld("type"@).len() as int + enc_key("join"@).len() as int + 1, false) == Some((seq![MemberV { key: "from"@, val: PrimV::Str(from) }].add(seq![MemberV { key: "room"@, val: PrimV::Str(room) }].add(Seq::<MemberV>::empty())), 1 + fld("type"@).len() as int + enc_key("join"@).len() as int + 1 + fld("from"@).len() as int + enc_str(from).len() as int + 1 + fld("room"@).len() as int + enc_str(room).len() as int + 1))
        }),
{
    reveal_strlit("from");
    reveal_strlit("join");
    reveal_strlit("room");
    reveal_strlit("type");
    lemma_rt_join_layout0(from, room);
    lemma_rt_join_layout1(from, room);
    lemma_rt_join_layout2(from, room);
    let m = MsgV::Join { from, room };
    let t = spec_encode(m);
    assert(plain_seq("from"@));
    lemma_value_str(t, 1 + fld("type"@).len() as int + enc_key("join"@).len() as int + 1 + fld("from"@).len() as int, from);
    assert(spec_value_prim(t, 1 + fld("type"@).len() as int + enc_key("join"@).len() as int + 1 + fld("from"@).len() as int) == Some((PrimV::Str(from), 1 + fld("type"@).len() as int + enc_key("join"@).len() as int + 1 + fld("from"@).len() as int + enc_str(from).len() as int)));
    lemma_member(t, 1 + fld("type"@).len() as int + enc_key("join"@).len() as int + 1, false, "from"@, PrimV::Str(from), 1 + fld("type"@).len() as int + enc_key("join"@).len() as int + 1 + fld("from"@).len() as int + enc_str(from).len() as int);
    lemma_rt_join_tail2(from, room);
    lemma_comma_then(t, 1 + fld("type"@).len() as int + enc_key("join"@).len() as int + 1 + fld("from"@).len() as int + enc_str(from).len() as int);
    assert(spec_members(t, 1 + fld("type"@).len() as int + enc_key("join"@).len() as int + 1, false) == Some((seq![MemberV { key: "from"@, val: PrimV::Str(from) }].add(seq![MemberV { key: "room"@, val: PrimV::Str(room) }].add(Seq::<MemberV>::empty())), 1 + fld("type"@).len() as int + enc_key("join"@).len() as int + 1 + fld("from"@).len() as int + enc_str(from).len() as int + 1 + fld("room"@).len() as int + enc_str(room).len() as int + 1)));
}

#[verifier::rlimit(100)]
#[verifier::spinoff_prover]
proof fn lemma_rt_join_tail2(from: Seq<char>, room: Seq<char>)
    ensures
        ({
            let t = spec_encode(MsgV::Join { from, room });
            spec_members(t, 1 + fld("type"@).len() as int + enc_key("join"@).len() as int + 1 + fld("from"@).len() as int + enc_str(from).len() as int + 1, false) == Some((seq![MemberV { key: "room"@, val: PrimV::Str(room) }].add(Seq::<MemberV>::empty()), 1 + fld("type"@).len() as int + enc_key("join"@).len() as int + 1 + fld("from"@).len() as int + enc_str(from).len() as int + 1 + fld("room"@).len() as int + enc_str(room).len() as int + 1))
        }),
{
    reveal_strlit("from");
    reveal_strlit("join");
    reveal_strlit("room");
    reveal_strlit("type");
    lemma_rt_join_layout0(from, room);
    lemma_rt_join_layout1(from, room);
    lemma_rt_join_layout2(from, room);
    let m = MsgV::Join { from, room };
    let t = spec_encode(m);
    assert(plain_seq("room"@));
    lemma_value_str(t, 1 + fld("type"@).len() as int + enc_key("join"@).len() as int + 1 + fld("from"@).len() as int + enc_str(from).len() as int + 1 + fld("room"@).len() as int, room);
    assert(spec_value_prim(t, 1 + fld("type"@).len() as int + enc_key("join"@).len() as int + 1 + fld("from"@).len() as int + enc_str(from).len() as int + 1 + fld("room"@).len() as int) == Some((PrimV::Str(room), 1 + fld("type"@).len() as int + enc_key("join"@).len() as int + 1 + fld("from"@).len() as int + enc_str(from).len() as int + 1 + fld("room"@).len() as int + enc_str(room).len() as int)));
    lemma_member(t, 1 + fld("type"@).len() as int + enc_key("join"@).len() as int + 1 + fld("from"@).len() as int + enc_str(from).len() as int + 1, false, "room"@, PrimV::Str(room), 1 + fld("type"@).len() as int + enc_key("join"@).len() as int + 1 + fld("from"@).len() as int + enc_str(from).len() as int + 1 + fld("room"@).len() as int + enc_str(room).len() as int);
    lemma_close(t, 1 + fld("type"@).len() as int + enc_key("join"@).len() as int + 1 + fld("from"@).len() as int + enc_str(from).len() as int + 1 + fld("room"@).len() as int + enc_str(room).len() as int);
    assert(spec_members(t, 1 + fld("type"@).len() as int + enc_key("join"@).len() as int + 1 + fld("from"@).len() as int + enc_str(from).len() as int + 1, false) == Some((seq![MemberV { key: "room"@, val: PrimV::Str(room) }].add(Seq::<MemberV>::empty()), 1 + fld("type"@).len() as int + enc_key("join"@).len() as int + 1 + fld("from"@).len() as int + enc_str(from).len() as int + 1 + fld("room"@).len() as int + enc_str(room).len() as int + 1)));
}
#[verifier::rlimit(100)]
#[verifier::spinoff_prover]
proof fn lemma_rt_join_parse(from: Seq<char>, room: Seq<char>)
    ensures
        ({
            let t = spec_encode(MsgV::Join { from, room });
            spec_decode(t) == spec_msg_of_members(t, join_ms(from, room))
        }),
{
    lemma_rt_join_layout0(from, room);
    lemma_rt_join_layout1(from, room);
    lemma_rt_join_layout2(from, room);
    lemma_rt_join_tail0(from, room);
    let m = MsgV::Join { from, room };
    let t = spec_encode(m);
    assert(!is_jws(t[0]));
    assert(spec_ws(t, 0) == 0);
    assert(spec_ws(t, t.len() as int) == t.len());
    assert(join_ms(from, room) == seq![MemberV { key: "type"@, val: PrimV::Str("join"@) }].add(seq![MemberV { key: "from"@, val: PrimV::Str(from) }].add(seq![MemberV { key: "room"@, val: PrimV::Str(room) }].add(Seq::<MemberV>::empty()))));
    assert(spec_decode(t) == spec_msg_of_members(t, join_ms(from, room)));
}

#[verifier::rlimit(100)]
#[verifier::spinoff_prover]
proof fn lemma_rt_join(from: Seq<char>, room: Seq<char>)
    ensures
        spec_decode(spec_encode(MsgV::Join { from, room })) == Some(MsgV::Join { from, room }),
{
    reveal_strlit("answer");
    reveal_strlit("from");
    reveal_strlit("ice");
    reveal_strlit("join");
    reveal_strlit("offer");
    reveal_strlit("room");
    reveal_strlit("type");
    lemma_rt_join_parse(from, room);
    let m = MsgV::Join { from, room };
    let t = spec_encode(m);
    let ms = join_ms(from, room);
    let sfx1 = seq![MemberV { key: "from"@, val: PrimV::Str(from) }].add(seq![MemberV { key: "room"@, val: PrimV::Str(room) }].add(Seq::<MemberV>::empty()));
    let sfx2 = seq![MemberV { key: "room"@, val: PrimV::Str(room) }].add(Seq::<MemberV>::empty());
    assert(ms.drop_first() =~= sfx1);
    assert(sfx1.drop_first() =~= sfx2);
    assert("from"@ != "room"@) by {
        assert("from"@[0] != "room"@[0]);
    }
    assert("type"@ != "from"@) by {
        assert("type"@[0] != "from"@[0]);
    }
    assert("type"@ != "room"@) by {
        assert("type"@[0] != "room"@[0]);
    }
    assert("join"@ != "offer"@) by {
        assert("join"@.len() != "offer"@.len());
    }
    assert("join"@ != "answer"@) by {
        assert("join"@.len() != "answer"@.len());
    }
    assert("join"@ != "ice"@) by {
        assert("join"@.len() != "ice"@.len());
    }
    assert(field_of(ms, "type"@) == Some(PrimV::Str("join"@))) by {
        assert(ms[0] == MemberV { key: "type"@, val: PrimV::Str("join"@) });
    }
    assert(field_of(ms, "from"@) == field_of(sfx1, "from"@)) by {
        assert(ms[0].key != "from"@);
    }
    assert(field_of(sfx1, "from"@) == Some(PrimV::Str(from))) by {
        assert(sfx1[0] == MemberV { key: "from"@, val: PrimV::Str(from) });
    }
    assert(field_of(ms, "room"@) == field_of(sfx1, "room"@)) by {
        assert(ms[0].key != "room"@);
    }
    assert(field_of(sfx1, "room"@) == field_of(sfx2, "room"@)) by {
        assert(sfx1[0].key != "room"@);
    }
    assert(field_of(sfx2, "room"@) == Some(PrimV::Str(room))) by {
        assert(sfx2[0] == MemberV { key: "room"@, val: PrimV::Str(room) });
    }
    assert(req_str(ms, "type"@) == Some("join"@));
    assert(req_str(ms, "from"@) == Some(from));
    assert(req_str(ms, "room"@) == Some(room));
    assert(spec_msg_of_members(t, ms) == Some(m));
}

/// The member list of an encoded `join_declined` frame.
pub open spec fn join_declined_ms(to: Seq<char>, reason: Seq<char>) -> Seq<MemberV> {
    seq![MemberV { key: "type"@, val: PrimV::Str("join_declined"@) }].add(seq![MemberV { key: "to"@, val: PrimV::Str(to) }].add(seq![MemberV { key: "reason"@, val: PrimV::Str(reason) }].add(Seq::<MemberV>::empty())))
}

#[verifier::rlimit(100)]
#[verifier::spinoff_prover]
proof fn lemma_rt_join_declined_layout0(to: Seq<char>, reason: Seq<char>)
    ensures
        ({
            let t = spec_encode(MsgV::JoinDeclined { to, reason });
            &&& t.len() as int == 1 + fld("type"@).len() as int + enc_key("join_declined"@).len() as int + 1 + fld("to"@).len() as int + enc_str(to).len() as int + 1 + fld("reason"@).len() as int + enc_str(reason).len() as int + 1
            &&& t[0] == '{'
            &&& t.subrange(1, 1 + fld("type"@).len() as int) == fld("type"@)
            &&& t.subrange(1 + fld("type"@).len() as int, 1 + fld("type"@).len() as int + enc_key("join_declined"@).len() as int) == enc_key("join_declined"@)
        }),
{
    let m = MsgV::JoinDeclined { to, reason };
    let t = spec_encode(m);
    assert(t == seq!['{'].add(fld("type"@)).add(enc_key("join_declined"@)).add(seq![',']).add(fld("to"@)).add(enc_str(to)).add(seq![',']).add(fld("reason"@)).add(enc_str(reason)).add(seq!['}']));
    assert(t.len() as int == 1 + fld("type"@).len() as int + enc_key("join_declined"@).len() as int + 1 + fld("to"@).len() as int + enc_str(to).len() as int + 1 + fld("reason"@).len() as int + enc_str(reason).len() as int + 1);
    assert(t[0] == '{');
    assert(t.subrange(1, 1 + fld("type"@).len() as int) =~= fld("type"@));
    assert(t.subrange(1 + fld("type"@).len() as int, 1 + fld("type"@).len() as int + enc_key("join_declined"@).len() as int) =~= enc_key("join_declined"@));
}

#[verifier::rlimit(100)]
#[verifier::spinoff_prover]
proof fn lemma_rt_join_declined_layout1(to: Seq<char>, reason: Seq<char>)
    ensures
        ({
            let t = spec_encode(MsgV::JoinDeclined { to, reason });
            &&& t[1 + fld("type"@).len() as int + enc_key("join_declined"@).len() as int] == ','
            &&& t.subrange(1 + fld("type"@).len() as int + enc_key("join_declined"@).len() as int + 1, 1 + fld("type"@).len() as int + enc_key("join_declined"@).len() as int + 1 + fld("to"@).len() as int) == fld("to"@)
            &&& t.subrange(1 + fld("type"@).len() as int + enc_key("join_declined"@).len() as int + 1 + fld("to"@).len() as int, 1 + fld("type"@).len() as int + enc_key("join_declined"@).len() as int + 1 + fld("to"@).len() as int + enc_str(to).len() as int) == enc_str(to)
            &&& t[1 + fld("type"@).len() as int + enc_key("join_declined"@).len() as int + 1 + fld("to"@).len() as int + enc_str(to).len() as int] == ','
        }),
{
    let m = MsgV::JoinDeclined { to, reason };
    let t = spec_encode(m);
    assert(t == seq!['{'].add(fld("type"@)).add(enc_key("join_declined"@)).add(seq![',']).add(fld("to"@)).add(enc_str(to)).add(seq![',']).add(fld("reason"@)).add(enc_str(reason)).add(seq!['}']));
    assert(t[1 + fld("type"@).len() as int + enc_key("join_declined"@).len() as int] == ',');
    assert(t.subrange(1 + fld("type"@).len() as int + enc_key("join_declined"@).len() as int + 1, 1 + fld("type"@).len() as int + enc_key("join_declined"@).len() as int + 1 + fld("to"@).len() as int) =~= fld("to"@));
    assert(t.subrange(1 + fld("type"@).len() as int + enc_key("join_declined"@).len() as int + 1 + fld("to"@).len() as int, 1 + fld("type"@).len() as int + enc_key("join_declined"@).len() as int + 1 + fld("to"@).len() as int + enc_str(to).len() as int) =~= enc_str(to));
    assert(t[1 + fld("type"@).len() as int + enc_key("join_declined"@).len() as int + 1 + fld("to"@).len() as int + enc_str(to).len() as int] == ',');
}

#[verifier::rlimit(100)]
#[verifier::spinoff_prover]
proof fn lemma_rt_join_declined_layout2(to: Seq<char>, reason: Seq<char>)
    ensures
        ({
            let t = spec_encode(MsgV::JoinDeclined { to, reason });
            &&& t.subrange(1 + fld("type"@).len() as int + enc_key("join_declined"@).len() as int + 1 + fld("to"@).len() as int + enc_str(to).len() as int + 1, 1 + fld("type"@).len() as int + enc_key("join_declined"@).len() as int + 1 + fld("to"@).len() as int + enc_str(to).len() as int + 1 + fld("reason"@).len() as int) == fld("reason"@)
            &&& t.subrange(1 + fld("type"@).len() as int + enc_key("join_declined"@).len() as int + 1 + fld("to"@).len() as int + enc_str(to).len() as int + 1 + fld("reason"@).len() as int, 1 + fld("type"@).len() as int + enc_key("join_declined"@).len() as int + 1 + fld("to"@).len() as int + enc_str(to).len() as int + 1 + fld("reason"@).len() as int + enc_str(reason).len() as int) == enc_str(reason)
            &&& t[1 + fld("type"@).len() as int + enc_key("join_declined"@).len() as int + 1 + fld("to"@).len() as int + enc_str(to).len() as int + 1 + fld("reason"@).len() as int + enc_str(reason).len() as int] == '}'
        }),
{
    let m = MsgV::JoinDeclined { to, reason };
    let t = spec_encode(m);
    assert(t == seq!['{'].add(fld("type"@)).add(enc_key("join_declined"@)).add(seq![',']).add(fld("to"@)).add(enc_str(to)).add(seq![',']).add(fld("reason"@)).add(enc_str(reason)).add(seq!['}']));
    assert(t.subrange(1 + fld("type"@).len() as int + enc_key("join_declined"@).len() as int + 1 + fld("to"@).len() as int + enc_str(to).len() as int + 1, 1 + fld("type"@).len() as int + enc_key("join_declined"@).len() as int + 1 + fld("to"@).len() as int + enc_str(to).len() as int + 1 + fld("reason"@).len() as int) =~= fld("reason"@));
    assert(t.subrange(1 + fld("type"@).len() as int + enc_key("join_declined"@).len() as int + 1 + fld("to"@).len() as int + enc_str(to).len() as int + 1 + fld("reason"@).len() as int, 1 + fld("type"@).len() as int + enc_key("join_declined"@).len() as int + 1 + fld("to"@).len() as int + enc_str(to).len() as int + 1 + fld("reason"@).len() as int + enc_str(reason).len() as int) =~= enc_str(reason));
    assert(t[1 + fld("type"@).len() as int + enc_key("join_declined"@).len() as int + 1 + fld("to"@).len() as int + enc_str(to).len() as int + 1 + fld("reason"@).len() as int + enc_str(reason).len() as int] == '}');
}

#[verifier::rlimit(100)]
#[verifier::spinoff_prover]
proof fn lemma_rt_join_declined_tail0(to: Seq<char>, reason: Seq<char>)
    ensures
        ({
            let t = spec_encode(MsgV::JoinDeclined { to, reason });
            spec_members(t, 1, true) == Some((seq![MemberV { key: "type"@, val: PrimV::Str("join_declined"@) }].add(seq![MemberV { key: "to"@, val: PrimV::Str(to) }].add(seq![MemberV { key: "reason"@, val: PrimV::Str(reason) }].add(Seq::<MemberV>::empty()))), 1 + fld("type"@).len() as int + enc_key("join_declined"@).len() as int + 1 + fld("to"@).len() as int + enc_str(to).len() as int + 1 + fld("reason"@).len() as int + enc_str(reason).len() as int + 1))
        }),
{
    reveal_strlit("join_declined");
    reveal_strlit("reason");
    reveal_strlit("to");
    reveal_strlit("type");
    lemma_rt_join_declined_layout0(to, reason);
    lemma_rt_join_declined_layout1(to, reason);
    lemma_rt_join_declined_layout2(to, reason);
    let m = MsgV::JoinDeclined { to, reason };
    let t = spec_encode(m);
    assert(plain_seq("type"@));
    assert(plain_seq("join_declined"@));
    lemma_value_key(t, 1 + fld("type"@).len() as int, "join_declined"@);
    assert(spec_value_prim(t, 1 + fld("type"@).len() as int) == Some((PrimV::Str("join_declined"@), 1 + fld("type"@).len() as int + enc_key("join_declined"@).len() as int)));
    lemma_member(t, 1, true, "type"@, PrimV::Str("join_declined"@), 1 + fld("type"@).len() as int + enc_key("join_declined"@).len() as int);
    lemma_rt_join_declined_tail1(to, reason);
    lemma_comma_then(t, 1 + fld("type"@).len() as int + enc_key("join_declined"@).len() as int);
    assert(spec_members(t, 1, true) == Some((seq![MemberV { key: "type"@, val: PrimV::Str("join_declined"@) }].add(seq![MemberV { key: "to"@, val: PrimV::Str(to) }].add(seq![MemberV { key: "reason"@, val: PrimV::Str(reason) }].add(Seq::<MemberV>::empty()))), 1 + fld("type"@).len() as int + enc_key("join_declined"@).len() as int + 1 + fld("to"@).len() as int + enc_str(to).len() as int + 1 + fld("reason"@).len() as int + enc_str(reason).len() as int + 1)));
}

#[verifier::rlimit(100)]
#[verifier::spinoff_prover]
proof fn lemma_rt_join_declined_tail1(to: Seq<char>, reason: Seq<char>)
    ensures
        ({
            let t = spec_encode(MsgV::JoinDeclined { to, reason });
            spec_members(t, 1 + fld("type"@).len() as int + enc_key("join_declined"@).len() as int + 1, false) == Some((seq![MemberV { key: "to"@, val: PrimV::Str(to) }].add(seq![MemberV { key: "reason"@, val: PrimV::Str(reason) }].add(Seq::<MemberV>::empty())), 1 + fld("type"@).len() as int + enc_key("join_declined"@).len() as int + 1 + fld("to"@).len() as int + enc_str(to).len() as int + 1 + fld("reason"@).len() as int + enc_str(reason).len() as int + 1))
        }),
{
    reveal_strlit("join_declined");
    reveal_strlit("reason");
    reveal_strlit("to");
    reveal_strlit("type");
    lemma_rt_join_declined_layout0(to, reason);
    lemma_rt_join_declined_layout1(to, reason);
    lemma_rt_join_declined_layout2(to, reason);
    let m = MsgV::JoinDeclined { to, reason };
    let t = spec_encode(m);
    assert(plain_seq("to"@));
    lemma_value_str(t, 1 + fld("type"@).len() as int + enc_key("join_declined"@).len() as int + 1 + fld("to"@).len() as int, to);
    assert(spec_value_prim(t, 1 + fld("type"@).len() as int + enc_key("join_declined"@).len() as int + 1 + fld("to"@).len() as int) == Some((PrimV::Str(to), 1 + fld("type"@).len() as int + enc_key("join_declined"@).len() as int + 1 + fld("to"@).len() as int + enc_str(to).len() as int)));
    lemma_member(t, 1 + fld("type"@).len() as int + enc_key("join_declined"@).len() as int + 1, false, "to"@, PrimV::Str(to), 1 + fld("type"@).len() as int + enc_key("join_declined"@).len() as int + 1 + fld("to"@).len() as int + enc_str(to).len() as int);
    lemma_rt_join_declined_tail2(to, reason);
    lemma_comma_then(t, 1 + fld("type"@).len() as int + enc_key("join_declined"@).len() as int + 1 + fld("to"@).len() as int + enc_str(to).len() as int);
    assert(spec_members(t, 1 + fld("type"@).len() as int + enc_key("join_declined"@).len() as int + 1, false) == Some((seq![MemberV { key: "to"@, val: PrimV::Str(to) }].add(seq![MemberV { key: "reason"@, val: PrimV::Str(reason) }].add(Seq::<MemberV>::empty())), 1 + fld("type"@).len() as int + enc_key("join_declined"@).len() as int + 1 + fld("to"@).len() as int + enc_str(to).len() as int + 1 + fld("reason"@).len() as int + enc_str(reason).len() as int + 1)));
}

#[verifier::rlimit(100)]
#[verifier::spinoff_prover]
proof fn lemma_rt_join_declined_tail2(to: Seq<char>, reason: Seq<char>)
    ensures
        ({
            let t = spec_encode(MsgV::JoinDeclined { to, reason });
            spec_members(t, 1 + fld("type"@).len() as int + enc_key("join_declined"@).len() as int + 1 + fld("to"@).len() as int + enc_str(to).len() as int + 1, false) == Some((seq![MemberV { key: "reason"@, val: PrimV::Str(reason) }].add(Seq::<MemberV>::empty()), 1 + fld("type"@).len() as int + enc_key("join_declined"@).len() as int + 1 + fld("to"@).len() as int + enc_str(to).len() as int + 1 + fld("reason"@).len() as int + enc_str(reason).len() as int + 1))
        }),
{
    reveal_strlit("join_declined");
    reveal_strlit("reason");
    reveal_strlit("to");
    reveal_strlit("type");
    lemma_rt_join_declined_layout0(to, reason);
    lemma_rt_join_declined_layout1(to, reason);
    lemma_rt_join_declined_layout2(to, reason);
    let m = MsgV::JoinDeclined { to, reason };
    let t = spec_encode(m);
    assert(plain_seq("reason"@));
    lemma_value_str(t, 1 + fld("type"@).len() as int + enc_key("join_declined"@).len() as int + 1 + fld("to"@).len() as int + enc_str(to).len() as int + 1 + fld("reason"@).len() as int, reason);
    assert(spec_value_prim(t, 1 + fld("type"@).len() as int + enc_key("join_declined"@).len() as int + 1 + fld("to"@).len() as int + enc_str(to).len() as int + 1 + fld("reason"@).len() as int) == Some((PrimV::Str(reason), 1 + fld("type"@).len() as int + enc_key("join_declined"@).len() as int + 1 + fld("to"@).len() as int + enc_str(to).len() as int + 1 + fld("reason"@).len() as int + enc_str(reason).len() as int)));
    lemma_member(t, 1 + fld("type"@).len() as int + enc_key("join_declined"@).len() as int + 1 + fld("to"@).len() as int + enc_str(to).len() as int + 1, false, "reason"@, PrimV::Str(reason), 1 + fld("type"@).len() as int + enc_key("join_declined"@).len() as int + 1 + fld("to"@).len() as int + enc_str(to).len() as int + 1 + fld("reason"@).len() as int + enc_str(reason).len() as int);
    lemma_close(t, 1 + fld("type"@).len() as int + enc_key("join_declined"@).len() as int + 1 + fld("to"@).len() as int + enc_str(to).len() as int + 1 + fld("reason"@).len() as int + enc_str(reason).len() as int);
    assert(spec_members(t, 1 + fld("type"@).len() as int + enc_key("join_declined"@).len() as int + 1 + fld("to"@).len() as int + enc_str(to).len() as int + 1, false) == Some((seq![MemberV { key: "reason"@, val: PrimV::Str(reason) }].add(Seq::<MemberV>::empty()), 1 + fld("type"@).len() as int + enc_key("join_declined"@).len() as int + 1 + fld("to"@).len() as int + enc_str(to).len() as int + 1 + fld("reason"@).len() as int + enc_str(reason).len() as int + 1)));
}
#[verifier::rlimit(100)]
#[verifier::spinoff_prover]
proof fn lemma_rt_join_declined_parse(to: Seq<char>, reason: Seq<char>)
    ensures
        ({
            let t = spec_encode(MsgV::JoinDeclined { to, reason });
            spec_decode(t) == spec_msg_of_members(t, join_declined_ms(to, reason))
        }),
{
    lemma_rt_join_declined_layout0(to, reason);
    lemma_rt_join_declined_layout1(to, reason);
    lemma_rt_join_declined_layout2(to, reason);
    lemma_rt_join_declined_tail0(to, reason);
    let m = MsgV::JoinDeclined { to, reason };
    let t = spec_encode(m);
    assert(!is_jws(t[0]));
    assert(spec_ws(t, 0) == 0);
    assert(spec_ws(t, t.len() as int) == t.len());
    assert(join_declined_ms(to, reason) == seq![MemberV { key: "type"@, val: PrimV::Str("join_declined"@) }].add(seq![MemberV { key: "to"@, val: PrimV::Str(to) }].add(seq![MemberV { key: "reason"@, val: PrimV::Str(reason) }].add(Seq::<MemberV>::empty()))));
    assert(spec_decode(t) == spec_msg_of_members(t, join_declined_ms(to, reason)));
}

#[verifier::rlimit(100)]
#[verifier::spinoff_prover]
proof fn lemma_rt_join_declined(to: Seq<char>, reason: Seq<char>)
    ensures
        spec_decode(spec_encode(MsgV::JoinDeclined { to, reason })) == Some(MsgV::JoinDeclined { to, reason }),
{
    reveal_strlit("answer");
    reveal_strlit("ice");
    reveal_strlit("join");
    reveal_strlit("join_declined");
    reveal_strlit("offer");
    reveal_strlit("reason");
    reveal_strlit("to");
    reveal_strlit("type");
    lemma_rt_join_declined_parse(to, reason);
    let m = MsgV::JoinDeclined { to, reason };
    let t = spec_encode(m);
    let ms = join_declined_ms(to, reason);
    let sfx1 = seq![MemberV { key: "to"@, val: PrimV::Str(to) }].add(seq![MemberV { key: "reason"@, val: PrimV::Str(reason) }].add(Seq::<MemberV>::empty()));
    let sfx2 = seq![MemberV { key: "reason"@, val: PrimV::Str(reason) }].add(Seq::<MemberV>::empty());
    assert(ms.drop_first() =~= sfx1);
    assert(sfx1.drop_first() =~= sfx2);
    assert("to"@ != "reason"@) by {
        assert("to"@.len() != "reason"@.len());
    }
    assert("type"@ != "reason"@) by {
        assert("type"@.len() != "reason"@.len());
    }
    assert("type"@ != "to"@) by {
        assert("type"@.len() != "to"@.len());
    }
    assert("join_declined"@ != "offer"@) by {
        assert("join_declined"@.len() != "offer"@.len());
    }
    assert("join_declined"@ != "answer"@) by {
        assert("join_declined"@.len() != "answer"@.len());
    }
    assert("join_declined"@ != "ice"@) by {
        assert("join_declined"@.len() != "ice"@.len());
    }
    assert("join_declined"@ != "join"@) by {
        assert("join_declined"@.len() != "join"@.len());
    }
    assert(field_of(ms, "type"@) == Some(PrimV::Str("join_declined"@))) by {
        assert(ms[0] == MemberV { key: "type"@, val: PrimV::Str("join_declined"@) });
    }
    assert(field_of(ms, "to"@) == field_of(sfx1, "to"@)) by {
        assert(ms[0].key != "to"@);
    }
    assert(field_of(sfx1, "to"@) == Some(PrimV::Str(to))) by {
        assert(sfx1[0] == MemberV { key: "to"@, val: PrimV::Str(to) });
    }
    assert(field_of(ms, "reason"@) == field_of(sfx1, "reason"@)) by {
        assert(ms[0].key != "reason"@);
    }
    assert(field_of(sfx1, "reason"@) == field_of(sfx2, "reason"@)) by {
        assert(sfx1[0].key != "reason"@);
    }
    assert(field_of(sfx2, "reason"@) == Some(PrimV::Str(reason))) by {
        assert(sfx2[0] == MemberV { key: "reason"@, val: PrimV::Str(reason) });
    }
    assert(req_str(ms, "type"@) == Some("join_declined"@));
    assert(req_str(ms, "to"@) == Some(to));
    assert(req_str(ms, "reason"@) == Some(reason));
    assert(spec_msg_of_members(t, ms) == Some(m));
}

/// The member list of an encoded `start` frame.
pub open spec fn start_ms(room: Seq<char>, name: Seq<char>, os: Seq<char>, version: Seq<char>, control: bool) -> Seq<MemberV> {
    seq![MemberV { key: "type"@, val: PrimV::Str("start"@) }].add(seq![MemberV { key: "room"@, val: PrimV::Str(room) }].add(seq![MemberV { key: "name"@, val: PrimV::Str(name) }].add(seq![MemberV { key: "os"@, val: PrimV::Str(os) }].add(seq![MemberV { key: "version"@, val: PrimV::Str(version) }].add(seq![MemberV { key: "control"@, val: PrimV::Bool(control) }].add(Seq::<MemberV>::empty()))))))
}

#[verifier::rlimit(100)]
#[verifier::spinoff_prover]
proof fn lemma_rt_start_layout0(room: Seq<char>, name: Seq<char>, os: Seq<char>, version: Seq<char>, control: bool)
    ensures
        ({
            let t = spec_encode(MsgV::Start { room, name, os, version, control });
            &&& t.len() as int == 1 + fld("type"@).len() as int + enc_key("start"@).len() as int + 1 + fld("room"@).len() as int + enc_str(room).len() as int + 1 + fld("name"@).len() as int + enc_str(name).len() as int + 1 + fld("os"@).len() as int + enc_str(os).len() as int + 1 + fld("version"@).len() as int + enc_str(version).len() as int + 1 + fld("control"@).len() as int + enc_bool(control).len() as int + 1
            &&& t[0] == '{'
            &&& t.subrange(1, 1 + fld("type"@).len() as int) == fld("type"@)
            &&& t.subrange(1 + fld("type"@).len() as int, 1 + fld("type"@).len() as int + enc_key("start"@).len() as int) == enc_key("start"@)
        }),
{
    let m = MsgV::Start { room, name, os, version, control };
    let t = spec_encode(m);
    assert(t == seq!['{'].add(fld("type"@)).add(enc_key("start"@)).add(seq![',']).add(fld("room"@)).add(enc_str(room)).add(seq![',']).add(fld("name"@)).add(enc_str(name)).add(seq![',']).add(fld("os"@)).add(enc_str(os)).add(seq![',']).add(fld("version"@)).add(enc_str(version)).add(seq![',']).add(fld("control"@)).add(enc_bool(control)).add(seq!['}']));
    assert(t.len() as int == 1 + fld("type"@).len() as int + enc_key("start"@).len() as int + 1 + fld("room"@).len() as int + enc_str(room).len() as int + 1 + fld("name"@).len() as int + enc_str(name).len() as int + 1 + fld("os"@).len() as int + enc_str(os).len() as int + 1 + fld("version"@).len() as int + enc_str(version).len() as int + 1 + fld("control"@).len() as int + enc_bool(control).len() as int + 1);
    assert(t[0] == '{');
    assert(t.subrange(1, 1 + fld("type"@).len() as int) =~= fld("type"@));
    assert(t.subrange(1 + fld("type"@).len() as int, 1 + fld("type"@).len() as int + enc_key("start"@).len() as int) =~= enc_key("start"@));
}

#[verifier::rlimit(100)]
#[verifier::spinoff_prover]
proof fn lemma_rt_start_layout1(room: Seq<char>, name: Seq<char>, os: Seq<char>, version: Seq<char>, control: bool)
    ensures
        ({
            let t = spec_encode(MsgV::Start { room, name, os, version, control });
            &&& t[1 + fld("type"@).len() as int + enc_key("start"@).len() as int] == ','
            &&& t.subrange(1 + fld("type"@).len() as int + enc_key("start"@).len() as int + 1, 1 + fld("type"@).len() as int + enc_key("start"@).len() as int + 1 + fld("room"@).len() as int) == fld("room"@)
            &&& t.subrange(1 + fld("type"@).len() as int + enc_key("start"@).len() as int + 1 + fld("room"@).len() as int, 1 + fld("type"@).len() as int + enc_key("start"@).len() as int + 1 + fld("room"@).len() as int + enc_str(room).len() as int) == enc_str(room)
            &&& t[1 + fld("type"@).len() as int + enc_key("start"@).len() as int + 1 + fld("room"@).len() as int + enc_str(room).len() as int] == ','
        }),
{
    let m = MsgV::Start { room, name, os, version, control };
    let t = spec_encode(m);
    assert(t == seq!['{'].add(fld("type"@)).add(enc_key("start"@)).add(seq![',']).add(fld("room"@)).add(enc_str(room)).add(seq![',']).add(fld("name"@)).add(enc_str(name)).add(seq![',']).add(fld("os"@)).add(enc_str(os)).add(seq![',']).add(fld("version"@)).add(enc_str(version)).add(seq![',']).add(fld("control"@)).add(enc_bool(control)).add(seq!['}']));
    assert(t[1 + fld("type"@).len() as int + enc_key("start"@).len() as int] == ',');
    assert(t.subrange(1 + fld("type"@).len() as int + enc_key("start"@).len() as int + 1, 1 + fld("type"@).len() as int + enc_key("start"@).len() as int + 1 + fld("room"@).len() as int) =~= fld("room"@));
    assert(t.subrange(1 + fld("type"@).len() as int + enc_key("start"@).len() as int + 1 + fld("room"@).len() as int, 1 + fld("type"@).len() as int + enc_key("start"@).len() as int + 1 + fld("room"@).len() as int + enc_str(room).len() as int) =~= enc_str(room));
    assert(t[1 + fld("type"@).len() as int + enc_key("start"@).len() as int + 1 + fld("room"@).len() as int + enc_str(room).len() as int] == ',');
}

#[verifier::rlimit(100)]
#[verifier::spinoff_prover]
proof fn lemma_rt_start_layout2(room: Seq<char>, name: Seq<char>, os: Seq<char>, version: Seq<char>, control: bool)
    ensures
        ({
            let t = spec_encode(MsgV::Start { room, name, os, version, control });
            &&& t.subrange(1 + fld("type"@).len() as int + enc_key("start"@).len() as int + 1 + fld("room"@).len() as int + enc_str(room).len() as int + 1, 1 + fld("type"@).len() as int + enc_key("start"@).len() as int + 1 + fld("room"@).len() as int + enc_str(room).len() as int + 1 + fld("name"@).len() as int) == fld("name"@)
            &&& t.subrange(1 + fld("type"@).len() as int + enc_key("start"@).len() as int + 1 + fld("room"@).len() as int + enc_str(room).len() as int + 1 + fld("name"@).len() as int, 1 + fld("type"@).len() as int + enc_key("start"@).len() as int + 1 + fld("room"@).len() as int + enc_str(room).len() as int + 1 + fld("name"@).len() as int + enc_str(name).len() as int) == enc_str(name)
            &&& t[1 + fld("type"@).len() as int + enc_key("start"@).len() as int + 1 + fld("room"@).len() as int + enc_str(room).len() as int + 1 + fld("name"@).len() as int + enc_str(name).len() as int] == ','
            &&& t.subrange(1 + fld("type"@).len() as int + enc_key("start"@).len() as int + 1 + fld("room"@).len() as int + enc_str(room).len() as int + 1 + fld("name"@).len() as int + enc_str(name).len() as int + 1, 1 + fld("type"@).len() as int + enc_key("start"@).len() as int + 1 + fld("room"@).len() as int + enc_str(room).len() as int + 1 + fld("name"@).len() as int + enc_str(name).len() as int + 1 + fld("os"@).len() as int) == fld("os"@)
        }),
{
    let m = MsgV::Start { room, name, os, version, control };
    let t = spec_encode(m);
    assert(t == seq!['{'].add(fld("type"@)).add(enc_key("start"@)).add(seq![',']).add(fld("room"@)).add(enc_str(room)).add(seq![',']).add(fld("name"@)).add(enc_str(name)).add(seq![',']).add(fld("os"@)).add(enc_str(os)).add(seq![',']).add(fld("version"@)).add(enc_str(version)).add(seq![',']).add(fld("control"@)).add(enc_bool(control)).add(seq!['}']));
    assert(t.subrange(1 + fld("type"@).len() as int + enc_key("start"@).len() as int + 1 + fld("room"@).len() as int + enc_str(room).len() as int + 1, 1 + fld("type"@).len() as int + enc_key("start"@).len() as int + 1 + fld("room"@).len() as int + enc_str(room).len() as int + 1 + fld("name"@).len() as int) =~= fld("name"@));
    assert(t.subrange(1 + fld("type"@).len() as int + enc_key("start"@).len() as int + 1 + fld("room"@).len() as int + enc_str(room).len() as int + 1 + fld("name"@).len() as int, 1 + fld("type"@).len() as int + enc_key("start"@).len() as int + 1 + fld("room"@).len() as int + enc_str(room).len() as int + 1 + fld("name"@).len() as int + enc_str(name).len() as int) =~= enc_str(name));
    assert(t[1 + fld("type"@).len() as int + enc_key("start"@).len() as int + 1 + fld("room"@).len() as int + enc_str(room).len() as int + 1 + fld("name"@).len() as int + enc_str(name).len() as int] == ',');
    assert(t.subrange(1 + fld("type"@).len() as int + enc_key("start"@).len() as int + 1 + fld("room"@).len() as int + enc_str(room).len() as int + 1 + fld("name"@).len() as int + enc_str(name).len() as int + 1, 1 + fld("type"@).len() as int + enc_key("start"@).len() as int + 1 + fld("room"@).len() as int + enc_str(room).len() as int + 1 + fld("name"@).len() as int + enc_str(name).len() as int + 1 + fld("os"@).len() as int) =~= fld("os"@));
}

#[verifier::rlimit(100)]
#[verifier::spinoff_prover]
proof fn lemma_rt_start_layout3(room: Seq<char>, name: Seq<char>, os: Seq<char>, version: Seq<char>, control: bool)
    ensures
        ({
            let t = spec_encode(MsgV::Start { room, name, os, version, control });
            &&& t.subrange(1 + fld("type"@).len() as int + enc_key("start"@).len() as int + 1 + fld("room"@).len() as int + enc_str(room).len() as int + 1 + fld("name"@).len() as int + enc_str(name).len() as int + 1 + fld("os"@).len() as int, 1 + fld("type"@).len() as int + enc_key("start"@).len() as int + 1 + fld("room"@).len() as int + enc_str(room).len() as int + 1 + fld("name"@).len() as int + enc_str(name).len() as int + 1 + fld("os"@).len() as int + enc_str(os).len() as int) == enc_str(os)
            &&& t[1 + fld("type"@).len() as int + enc_key("start"@).len() as int + 1 + fld("room"@).len() as int + enc_str(room).len() as int + 1 + fld("name"@).len() as int + enc_str(name).len() as int + 1 + fld("os"@).len() as int + enc_str(os).len() as int] == ','
            &&& t.subrange(1 + fld("type"@).len() as int + enc_key("start"@).len() as int + 1 + fld("room"@).len() as int + enc_str(room).len() as int + 1 + fld("name"@).len() as int + enc_str(name).len() as int + 1 + fld("os"@).len() as int + enc_str(os).len() as int + 1, 1 + fld("type"@).len() as int + enc_key("start"@).len() as int + 1 + fld("room"@).len() as int + enc_str(room).len() as int + 1 + fld("name"@).len() as int + enc_str(name).len() as int + 1 + fld("os"@).len() as int + enc_str(os).len() as int + 1 + fld("version"@).len() as int) == fld("version"@)
            &&& t.subrange(1 + fld("type"@).len() as int + enc_key("start"@).len() as int + 1 + fld("room"@).len() as int + enc_str(room).len() as int + 1 + fld("name"@).len() as int + enc_str(name).len() as int + 1 + fld("os"@).len() as int + enc_str(os).len() as int + 1 + fld("version"@).len() as int, 1 + fld("type"@).len() as int + enc_key("start"@).len() as int + 1 + fld("room"@).len() as int + enc_str(room).len() as int + 1 + fld("name"@).len() as int + enc_str(name).len() as int + 1 + fld("os"@).len() as int + enc_str(os).len() as int + 1 + fld("version"@).len() as int + enc_str(version).len() as int) == enc_str(version)
        }),
{
    let m = MsgV::Start { room, name, os, version, control };
    let t = spec_encode(m);
    assert(t == seq!['{'].add(fld("type"@)).add(enc_key("start"@)).add(seq![',']).add(fld("room"@)).add(enc_str(room)).add(seq![',']).add(fld("name"@)).add(enc_str(name)).add(seq![',']).add(fld("os"@)).add(enc_str(os)).add(seq![',']).add(fld("version"@)).add(enc_str(version)).add(seq![',']).add(fld("control"@)).add(enc_bool(control)).add(seq!['}']));
    assert(t.subrange(1 + fld("type"@).len() as int + enc_key("start"@).len() as int + 1 + fld("room"@).len() as int + enc_str(room).len() as int + 1 + fld("name"@).len() as int + enc_str(name).len() as int + 1 + fld("os"@).len() as int, 1 + fld("type"@).len() as int + enc_key("start"@).len() as int + 1 + fld("room"@).len() as int + enc_str(room).len() as int + 1 + fld("name"@).len() as int + enc_str(name).len() as int + 1 + fld("os"@).len() as int + enc_str(os).len() as int) =~= enc_str(os));
    assert(t[1 + fld("type"@).len() as int + enc_key("start"@).len() as int + 1 + fld("room"@).len() as int + enc_str(room).len() as int + 1 + fld("name"@).len() as int + enc_str(name).len() as int + 1 + fld("os"@).len() as int + enc_str(os).len() as int] == ',');
    assert(t.subrange(1 + fld("type"@).len() as int + enc_key("start"@).len() as int + 1 + fld("room"@).len() as int + enc_str(room).len() as int + 1 + fld("name"@).len() as int + enc_str(name).len() as int + 1 + fld("os"@).len() as int + enc_str(os).len() as int + 1, 1 + fld("type"@).len() as int + enc_key("start"@).len() as int + 1 + fld("room"@).len() as int + enc_str(room).len() as int + 1 + fld("name"@).len() as int + enc_str(name).len() as int + 1 + fld("os"@).len() as int + enc_str(os).len() as int + 1 + fld("version"@).len() as int) =~= fld("version"@));
    assert(t.subrange(1 + fld("type"@).len() as int + enc_key("start"@).len() as int + 1 + fld("room"@).len() as int + enc_str(room).len() as int + 1 + fld("name"@).len() as int + enc_str(name).len() as int + 1 + fld("os"@).len() as int + enc_str(os).len() as int + 1 + fld("version"@).len() as int, 1 + fld("type"@).len() as int + enc_key("start"@).len() as int + 1 + fld("room"@).len() as int + enc_str(room).len() as int + 1 + fld("name"@).len() as int + enc_str(name).len() as int + 1 + fld("os"@).len() as int + enc_str(os).len() as int + 1 + fld("version"@).len() as int + enc_str(version).len() as int) =~= enc_str(version));
}

#[verifier::rlimit(100)]
#[verifier::spinoff_prover]
proof fn lemma_rt_start_layout4(room: Seq<char>, name: Seq<char>, os: Seq<char>, version: Seq<char>, control: bool)
    ensures
        ({
            let t = spec_encode(MsgV::Start { room, name, os, version, control });
            &&& t[1 + fld("type"@).len() as int + enc_key("start"@).len() as int + 1 + fld("room"@).len() as int + enc_str(room).len() as int + 1 + fld("name"@).len() as int + enc_str(name).len() as int + 1 + fld("os"@).len() as int + enc_str(os).len() as int + 1 + fld("version"@).len() as int + enc_str(version).len() as int] == ','
            &&& t.subrange(1 + fld("type"@).len() as int + enc_key("start"@).len() as int + 1 + fld("room"@).len() as int + enc_str(room).len() as int + 1 + fld("name"@).len() as int + enc_str(name).len() as int + 1 + fld("os"@).len() as int + enc_str(os).len() as int + 1 + fld("version"@).len() as int + enc_str(version).len() as int + 1, 1 + fld("type"@).len() as int + enc_key("start"@).len() as int + 1 + fld("room"@).len() as int + enc_str(room).len() as int + 1 + fld("name"@).len() as int + enc_str(name).len() as int + 1 + fld("os"@).len() as int + enc_str(os).len() as int + 1 + fld("version"@).len() as int + enc_str(version).len() as int + 1 + fld("control"@).len() as int) == fld("control"@)
            &&& t.subrange(1 + fld("type"@).len() as int + enc_key("start"@).len() as int + 1 + fld("room"@).len() as int + enc_str(room).len() as int + 1 + fld("name"@).len() as int + enc_str(name).len() as int + 1 + fld("os"@).len() as int + enc_str(os).len() as int + 1 + fld("version"@).len() as int + enc_str(version).len() as int + 1 + fld("control"@).len() as int, 1 + fld("type"@).len() as int + enc_key("start"@).len() as int + 1 + fld("room"@).len() as int + enc_str(room).len() as int + 1 + fld("name"@).len() as int + enc_str(name).len() as int + 1 + fld("os"@).len() as int + enc_str(os).len() as int + 1 + fld("version"@).len() as int + enc_str(version).len() as int + 1 + fld("control"@).len() as int + enc_bool(control).len() as int) == enc_bool(control)
            &&& t[1 + fld("type"@).len() as int + enc_key("start"@).len() as int + 1 + fld("room"@).len() as int + enc_str(room).len() as int + 1 + fld("name"@).len() as int + enc_str(name).len() as int + 1 + fld("os"@).len() as int + enc_str(os).len() as int + 1 + fld("version"@).len() as int + enc_str(version).len() as int + 1 + fld("control"@).len() as int + enc_bool(control).len() as int] == '}'
        }),
{
    let m = MsgV::Start { room, name, os, version, control };
    let t = spec_encode(m);
    assert(t == seq!['{'].add(fld("type"@)).add(enc_key("start"@)).add(seq![',']).add(fld("room"@)).add(enc_str(room)).add(seq![',']).add(fld("name"@)).add(enc_str(name)).add(seq![',']).add(fld("os"@)).add(enc_str(os)).add(seq![',']).add(fld("version"@)).add(enc_str(version)).add(seq![',']).add(fld("control"@)).add(enc_bool(control)).add(seq!['}']));
    assert(t[1 + fld("type"@).len() as int + enc_key("start"@).len() as int + 1 + fld("room"@).len() as int + enc_str(room).len() as int + 1 + fld("name"@).len() as int + enc_str(name).len() as int + 1 + fld("os"@).len() as int + enc_str(os).len() as int + 1 + fld("version"@).len() as int + enc_str(version).len() as int] == ',');
    assert(t.subrange(1 + fld("type"@).len() as int + enc_key("start"@).len() as int + 1 + fld("room"@).len() as int + enc_str(room).len() as int + 1 + fld("name"@).len() as int + enc_str(name).len() as int + 1 + fld("os"@).len() as int + enc_str(os).len() as int + 1 + fld("version"@).len() as int + enc_str(version).len() as int + 1, 1 + fld("type"@).len() as int + enc_key("start"@).len() as int + 1 + fld("room"@).len() as int + enc_str(room).len() as int + 1 + fld("name"@).len() as int + enc_str(name).len() as int + 1 + fld("os"@).len() as int + enc_str(os).len() as int + 1 + fld("version"@).len() as int + enc_str(version).len() as int + 1 + fld("control"@).len() as int) =~= fld("control"@));
    assert(t.subrange(1 + fld("type"@).len() as int + enc_key("start"@).len() as int + 1 + fld("room"@).len() as int + enc_str(room).len() as int + 1 + fld("name"@).len() as int + enc_str(name).len() as int + 1 + fld("os"@).len() as int + enc_str(os).len() as int + 1 + fld("version"@).len() as int + enc_str(version).len() as int + 1 + fld("control"@).len() as int, 1 + fld("type"@).len() as int + enc_key("start"@).len() as int + 1 + fld("room"@).len() as int + enc_str(room).len() as int + 1 + fld("name"@).len() as int + enc_str(name).len() as int + 1 + fld("os"@).len() as int + enc_str(os).len() as int + 1 + fld("version"@).len() as int + enc_str(version).len() as int + 1 + fld("control"@).len() as int + enc_bool(control).len() as int) =~= enc_bool(control));
    assert(t[1 + fld("type"@).len() as int + enc_key("start"@).len() as int + 1 + fld("room"@).len() as int + enc_str(room).len() as int + 1 + fld("name"@).len() as int + enc_str(name).len() as int + 1 + fld("os"@).len() as int + enc_str(os).len() as int + 1 + fld("version"@).len() as int + enc_str(version).len() as int + 1 + fld("control"@).len() as int + enc_bool(control).len() as int] == '}');
}

#[verifier::rlimit(100)]
#[verifier::spinoff_prover]
proof fn lemma_rt_start_tail0(room: Seq<char>, name: Seq<char>, os: Seq<char>, version: Seq<char>, control: bool)
    ensures
        ({
            let t = spec_encode(MsgV::Start { room, name, os, version, control });
            spec_members(t, 1, true) == Some((seq![MemberV { key: "type"@, val: PrimV::Str("start"@) }].add(seq![MemberV { key: "room"@, val: PrimV::Str(room) }].add(seq![MemberV { key: "name"@, val: PrimV::Str(name) }].add(seq![MemberV { key: "os"@, val: PrimV::Str(os) }].add(seq![MemberV { key: "version"@, val: PrimV::Str(version) }].add(seq![MemberV { key: "control"@, val: PrimV::Bool(control) }].add(Seq::<MemberV>::empty())))))), 1 + fld("type"@).len() as int + enc_key("start"@).len() as int + 1 + fld("room"@).len() as int + enc_str(room).len() as int + 1 + fld("name"@).len() as int + enc_str(name).len() as int + 1 + fld("os"@).len() as int + enc_str(os).len() as int + 1 + fld("version"@).len() as int + enc_str(version).len() as int + 1 + fld("control"@).len() as int + enc_bool(control).len() as int + 1))
        }),
{
    reveal_strlit("control");
    reveal_strlit("name");
    reveal_strlit("os");
    reveal_strlit("room");
    reveal_strlit("start");
    reveal_strlit("type");
    reveal_strlit("version");
    lemma_rt_start_layout0(room, name, os, version, control);
    lemma_rt_start_layout1(room, name, os, version, control);
    lemma_rt_start_layout2(room, name, os, version, control);
    lemma_rt_start_layout3(room, name, os, version, control);
    lemma_rt_start_layout4(room, name, os, version, control);
    let m = MsgV::Start { room, name, os, version, control };
    let t = spec_encode(m);
    assert(plain_seq("type"@));
    assert(plain_seq("start"@));
    lemma_value_key(t, 1 + fld("type"@).len() as int, "start"@);
    assert(spec_value_prim(t, 1 + fld("type"@).len() as int) == Some((PrimV::Str("start"@), 1 + fld("type"@).len() as int + enc_key("start"@).len() as int)));
    lemma_member(t, 1, true, "type"@, PrimV::Str("start"@), 1 + fld("type"@).len() as int + enc_key("start"@).len() as int);
    lemma_rt_start_tail1(room, name, os, version, control);
    lemma_comma_then(t, 1 + fld("type"@).len() as int + enc_key("start"@).len() as int);
    assert(spec_members(t, 1, true) == Some((seq![MemberV { key: "type"@, val: PrimV::Str("start"@) }].add(seq![MemberV { key: "room"@, val: PrimV::Str(room) }].add(seq![MemberV { key: "name"@, val: PrimV::Str(name) }].add(seq![MemberV { key: "os"@, val: PrimV::Str(os) }].add(seq![MemberV { key: "version"@, val: PrimV::Str(version) }].add(seq![MemberV { key: "control"@, val: PrimV::Bool(control) }].add(Seq::<MemberV>::empty())))))), 1 + fld("type"@).len() as int + enc_key("start"@).len() as int + 1 + fld("room"@).len() as int + enc_str(room).len() as int + 1 + fld("name"@).len() as int + enc_str(name).len() as int + 1 + fld("os"@).len() as int + enc_str(os).len() as int + 1 + fld("version"@).len() as int + enc_str(version).len() as int + 1 + fld("control"@).len() as int + enc_bool(control).len() as int + 1)));
}

#[verifier::rlimit(100)]
#[verifier::spinoff_prover]
proof fn lemma_rt_start_tail1(room: Seq<char>, name: Seq<char>, os: Seq<char>, version: Seq<char>, control: bool)
    ensures
        ({
            let t = spec_encode(MsgV::Start { room, name, os, version, control });
            spec_members(t, 1 + fld("type"@).len() as int + enc_key("start"@).len() as int + 1, false) == Some((seq![MemberV { key: "room"@, val: PrimV::Str(room) }].add(seq![MemberV { key: "name"@, val: PrimV::Str(name) }].add(seq![MemberV { key: "os"@, val: PrimV::Str(os) }].add(seq![MemberV { key: "version"@, val: PrimV::Str(version) }].add(seq![MemberV { key: "control"@, val: PrimV::Bool(control) }].add(Seq::<MemberV>::empty()))))), 1 + fld("type"@).len() as int + enc_key("start"@).len() as int + 1 + fld("room"@).len() as int + enc_str(room).len() as int + 1 + fld("name"@).len() as int + enc_str(name).len() as int + 1 + fld("os"@).len() as int + enc_str(os).len() as int + 1 + fld("version"@).len() as int + enc_str(version).len() as int + 1 + fld("control"@).len() as int + enc_bool(control).len() as int + 1))
        }),
{
    reveal_strlit("control");
    reveal_strlit("name");
    reveal_strlit("os");
    reveal_strlit("room");
    reveal_strlit("start");
    reveal_strlit("type");
    reveal_strlit("version");
    lemma_rt_start_layout0(room, name, os, version, control);
    lemma_rt_start_layout1(room, name, os, version, control);
    lemma_rt_start_layout2(room, name, os, version, control);
    lemma_rt_start_layout3(room, name, os, version, control);
    lemma_rt_start_layout4(room, name, os, version, control);
    let m = MsgV::Start { room, name, os, version, control };
    let t = spec_encode(m);
    assert(plain_seq("room"@));
    lemma_value_str(t, 1 + fld("type"@).len() as int + enc_key("start"@).len() as int + 1 + fld("room"@).len() as int, room);
    assert(spec_value_prim(t, 1 + fld("type"@).len() as int + enc_key("start"@).len() as int + 1 + fld("room"@).len() as int) == Some((PrimV::Str(room), 1 + fld("type"@).len() as int + enc_key("start"@).len() as int + 1 + fld("room"@).len() as int + enc_str(room).len() as int)));
    lemma_member(t, 1 + fld("type"@).len() as int + enc_key("start"@).len() as int + 1, false, "room"@, PrimV::Str(room), 1 + fld("type"@).len() as int + enc_key("start"@).len() as int + 1 + fld("room"@).len() as int + enc_str(room).len() as int);
    lemma_rt_start_tail2(room, name, os, version, control);
    lemma_comma_then(t, 1 + fld("type"@).len() as int + enc_key("start"@).len() as int + 1 + fld("room"@).len() as int + enc_str(room).len() as int);
    assert(spec_members(t, 1 + fld("type"@).len() as int + enc_key("start"@).len() as int + 1, false) == Some((seq![MemberV { key: "room"@, val: PrimV::Str(room) }].add(seq![MemberV { key: "name"@, val: PrimV::Str(name) }].add(seq![MemberV { key: "os"@, val: PrimV::Str(os) }].add(seq![MemberV { key: "version"@, val: PrimV::Str(version) }].add(seq![MemberV { key: "control"@, val: PrimV::Bool(control) }].add(Seq::<MemberV>::empty()))))), 1 + fld("type"@).len() as int + enc_key("start"@).len() as int + 1 + fld("room"@).len() as int + enc_str(room).len() as int + 1 + fld("name"@).len() as int + enc_str(name).len() as int + 1 + fld("os"@).len() as int + enc_str(os).len() as int + 1 + fld("version"@).len() as int + enc_str(version).len() as int + 1 + fld("control"@).len() as int + enc_bool(control).len() as int + 1)));
}

#[verifier::rlimit(100)]
#[verifier::spinoff_prover]
proof fn lemma_rt_start_tail2(room: Seq<char>, name: Seq<char>, os: Seq<char>, version: Seq<char>, control: bool)
    ensures
        ({
            let t = spec_encode(MsgV::Start { room, name, os, version, control });
            spec_members(t, 1 + fld("type"@).len() as int + enc_key("start"@).len() as int + 1 + fld("room"@).len() as int + enc_str(room).len() as int + 1, false) == Some((seq![MemberV { key: "name"@, val: PrimV::Str(name) }].add(seq![MemberV { key: "os"@, val: PrimV::Str(os) }].add(seq![MemberV { key: "version"@, val: PrimV::Str(version) }].add(seq![MemberV { key: "control"@, val: PrimV::Bool(control) }].add(Seq::<MemberV>::empty())))), 1 + fld("type"@).len() as int + enc_key("start"@).len() as int + 1 + fld("room"@).len() as int + enc_str(room).len() as int + 1 + fld("name"@).len() as int + enc_str(name).len() as int + 1 + fld("os"@).len() as int + enc_str(os).len() as int + 1 + fld("version"@).len() as int + enc_str(version).len() as int + 1 + fld("control"@).len() as int + enc_bool(control).len() as int + 1))
        }),
{
    reveal_strlit("control");
    reveal_strlit("name");
    reveal_strlit("os");
    reveal_strlit("room");
    reveal_strlit("start");
    reveal_strlit("type");
    reveal_strlit("version");
    lemma_rt_start_layout0(room, name, os, version, control);
    lemma_rt_start_layout1(room, name, os, version, control);
    lemma_rt_start_layout2(room, name, os, version, control);
    lemma_rt_start_layout3(room, name, os, version, control);
    lemma_rt_start_layout4(room, name, os, version, control);
    let m = MsgV::Start { room, name, os, version, control };
    let t = spec_encode(m);
    assert(plain_seq("name"@));
    lemma_value_str(t, 1 + fld("type"@).len() as int + enc_key("start"@).len() as int + 1 + fld("room"@).len() as int + enc_str(room).len() as int + 1 + fld("name"@).len() as int, name);
    assert(spec_value_prim(t, 1 + fld("type"@).len() as int + enc_key("start"@).len() as int + 1 + fld("room"@).len() as int + enc_str(room).len() as int + 1 + fld("name"@).len() as int) == Some((PrimV::Str(name), 1 + fld("type"@).len() as int + enc_key("start"@).len() as int + 1 + fld("room"@).len() as int + enc_str(room).len() as int + 1 + fld("name"@).len() as int + enc_str(name).len() as int)));
    lemma_member(t, 1 + fld("type"@).len() as int + enc_key("start"@).len() as int + 1 + fld("room"@).len() as int + enc_str(room).len() as int + 1, false, "name"@, PrimV::Str(name), 1 + fld("type"@).len() as int + enc_key("start"@).len() as int + 1 + fld("room"@).len() as int + enc_str(room).len() as int + 1 + fld("name"@).len() as int + enc_str(name).len() as int);
    lemma_rt_start_tail3(room, name, os, version, control);
    lemma_comma_then(t, 1 + fld("type"@).len() as int + enc_key("start"@).len() as int + 1 + fld("room"@).len() as int + enc_str(room).len() as int + 1 + fld("name"@).len() as int + enc_str(name).len() as int);
    assert(spec_members(t, 1 + fld("type"@).len() as int + enc_key("start"@).len() as int + 1 + fld("room"@).len() as int + enc_str(room).len() as int + 1, false) == Some((seq![MemberV { key: "name"@, val: PrimV::Str(name) }].add(seq![MemberV { key: "os"@, val: PrimV::Str(os) }].add(seq![MemberV { key: "version"@, val: PrimV::Str(version) }].add(seq![MemberV { key: "control"@, val: PrimV::Bool(control) }].add(Seq::<MemberV>::empty())))), 1 + fld("type"@).len() as int + enc_key("start"@).len() as int + 1 + fld("room"@).len() as int + enc_str(room).len() as int + 1 + fld("name"@).len() as int + enc_str(name).len() as int + 1 + fld("os"@).len() as int + enc_str(os).len() as int + 1 + fld("version"@).len() as int + enc_str(version).len() as int + 1 + fld("control"@).len() as int + enc_bool(control).len() as int + 1)));
}

#[verifier::rlimit(100)]
#[verifier::spinoff_prover]
proof fn lemma_rt_start_tail3(room: Seq<char>, name: Seq<char>, os: Seq<char>, version: Seq<char>, control: bool)
    ensures
        ({
            let t = spec_encode(MsgV::Start { room, name, os, version, control });
            spec_members(t, 1 + fld("type"@).len() as int + enc_key("start"@).len() as int + 1 + fld("room"@).len() as int + enc_str(room).len() as int + 1 + fld("name"@).len() as int + enc_str(name).len() as int + 1, false) == Some((seq![MemberV { key: "os"@, val: PrimV::Str(os) }].add(seq![MemberV { key: "version"@, val: PrimV::Str(version) }].add(seq![MemberV { key: "control"@, val: PrimV::Bool(control) }].add(Seq::<MemberV>::empty()))), 1 + fld("type"@).len() as int + enc_key("start"@).len() as int + 1 + fld("room"@).len() as int + enc_str(room).len() as int + 1 + fld("name"@).len() as int + enc_str(name).len() as int + 1 + fld("os"@).len() as int + enc_str(os).len() as int + 1 + fld("version"@).len() as int + enc_str(version).len() as int + 1 + fld("control"@).len() as int + enc_bool(control).len() as int + 1))
        }),
{
    reveal_strlit("control");
    reveal_strlit("name");
    reveal_strlit("os");
    reveal_strlit("room");
    reveal_strlit("start");
    reveal_strlit("type");
    reveal_strlit("version");
    lemma_rt_start_layout0(room, name, os, version, control);
    lemma_rt_start_layout1(room, name, os, version, control);
    lemma_rt_start_layout2(room, name, os, version, control);
    lemma_rt_start_layout3(room, name, os, version, control);
    lemma_rt_start_layout4(room, name, os, version, control);
    let m = MsgV::Start { room, name, os, version, control };
    let t = spec_encode(m);
    assert(plain_seq("os"@));
    lemma_value_str(t, 1 + fld("type"@).len() as int + enc_key("start"@).len() as int + 1 + fld("room"@).len() as int + enc_str(room).len() as int + 1 + fld("name"@).len() as int + enc_str(name).len() as int + 1 + fld("os"@).len() as int, os);
    assert(spec_value_prim(t, 1 + fld("type"@).len() as int + enc_key("start"@).len() as int + 1 + fld("room"@).len() as int + enc_str(room).len() as int + 1 + fld("name"@).len() as int + enc_str(name).len() as int + 1 + fld("os"@).len() as int) == Some((PrimV::Str(os), 1 + fld("type"@).len() as int + enc_key("start"@).len() as int + 1 + fld("room"@).len() as int + enc_str(room).len() as int + 1 + fld("name"@).len() as int + enc_str(name).len() as int + 1 + fld("os"@).len() as int + enc_str(os).len() as int)));
    lemma_member(t, 1 + fld("type"@).len() as int + enc_key("start"@).len() as int + 1 + fld("room"@).len() as int + enc_str(room).len() as int + 1 + fld("name"@).len() as int + enc_str(name).len() as int + 1, false, "os"@, PrimV::Str(os), 1 + fld("type"@).len() as int + enc_key("start"@).len() as int + 1 + fld("room"@).len() as int + enc_str(room).len() as int + 1 + fld("name"@).len() as int + enc_str(name).len() as int + 1 + fld("os"@).len() as int + enc_str(os).len() as int);
    lemma_rt_start_tail4(room, name, os, version, control);
    lemma_comma_then(t, 1 + fld("type"@).len() as int + enc_key("start"@).len() as int + 1 + fld("room"@).len() as int + enc_str(room).len() as int + 1 + fld("name"@).len() as int + enc_str(name).len() as int + 1 + fld("os"@).len() as int + enc_str(os).len() as int);
    assert(spec_members(t, 1 + fld("type"@).len() as int + enc_key("start"@).len() as int + 1 + fld("room"@).len() as int + enc_str(room).len() as int + 1 + fld("name"@).len() as int + enc_str(name).len() as int + 1, false) == Some((seq![MemberV { key: "os"@, val: PrimV::Str(os) }].add(seq![MemberV { key: "version"@, val: PrimV::Str(version) }].add(seq![MemberV { key: "control"@, val: PrimV::Bool(control) }].add(Seq::<MemberV>::empty()))), 1 + fld("type"@).len() as int + enc_key("start"@).len() as int + 1 + fld("room"@).len() as int + enc_str(room).len() as int + 1 + fld("name"@).len() as int + enc_str(name).len() as int + 1 + fld("os"@).len() as int + enc_str(os).len() as int + 1 + fld("version"@).len() as int + enc_str(version).len() as int + 1 + fld("control"@).len() as int + enc_bool(control).len() as int + 1)));
}

#[verifier::rlimit(100)]
#[verifier::spinoff_prover]
proof fn lemma_rt_start_tail4(room: Seq<char>, name: Seq<char>, os: Seq<char>, version: Seq<char>, control: bool)
    ensures
        ({
            let t = spec_encode(MsgV::Start { room, name, os, version, control });
            spec_members(t, 1 + fld("type"@).len() as int + enc_key("start"@).len() as int + 1 + fld("room"@).len() as int + enc_str(room).len() as int + 1 + fld("name"@).len() as int + enc_str(name).len() as int + 1 + fld("os"@).len() as int + enc_str(os).len() as int + 1, false) == Some((seq![MemberV { key: "version"@, val: PrimV::Str(version) }].add(seq![MemberV { key: "control"@, val: PrimV::Bool(control) }].add(Seq::<MemberV>::empty())), 1 + fld("type"@).len() as int + enc_key("start"@).len() as int + 1 + fld("room"@).len() as int + enc_str(room).len() as int + 1 + fld("name"@).len() as int + enc_str(name).len() as int + 1 + fld("os"@).len() as int + enc_str(os).len() as int + 1 + fld("version"@).len() as int + enc_str(version).len() as int + 1 + fld("control"@).len() as int + enc_bool(control).len() as int + 1))
        }),
{
    reveal_strlit("control");
    reveal_strlit("name");
    reveal_strlit("os");
    reveal_strlit("room");
    reveal_strlit("start");
    reveal_strlit("type");
    reveal_strlit("version");
    lemma_rt_start_layout0(room, name, os, version, control);
    lemma_rt_start_layout1(room, name, os, version, control);
    lemma_rt_start_layout2(room, name, os, version, control);
    lemma_rt_start_layout3(room, name, os, version, control);
    lemma_rt_start_layout4(room, name, os, version, control);
    let m = MsgV::Start { room, name, os, version, control };
    let t = spec_encode(m);
    assert(plain_seq("version"@));
    lemma_value_str(t, 1 + fld("type"@).len() as int + enc_key("start"@).len() as int + 1 + fld("room"@).len() as int + enc_str(room).len() as int + 1 + fld("name"@).len() as int + enc_str(name).len() as int + 1 + fld("os"@).len() as int + enc_str(os).len() as int + 1 + fld("version"@).len() as int, version);
    assert(spec_value_prim(t, 1 + fld("type"@).len() as int + enc_key("start"@).len() as int + 1 + fld("room"@).len() as int + enc_str(room).len() as int + 1 + fld("name"@).len() as int + enc_str(name).len() as int + 1 + fld("os"@).len() as int + enc_str(os).len() as int + 1 + fld("version"@).len() as int) == Some((PrimV::Str(version), 1 + fld("type"@).len() as int + enc_key("start"@).len() as int + 1 + fld("room"@).len() as int + enc_str(room).len() as int + 1 + fld("name"@).len() as int + enc_str(name).len() as int + 1 + fld("os"@).len() as int + enc_str(os).len() as int + 1 + fld("version"@).len() as int + enc_str(version).len() as int)));
    lemma_member(t, 1 + fld("type"@).len() as int + enc_key("start"@).len() as int + 1 + fld("room"@).len() as int + enc_str(room).len() as int + 1 + fld("name"@).len() as int + enc_str(name).len() as int + 1 + fld("os"@).len() as int + enc_str(os).len() as int + 1, false, "version"@, PrimV::Str(version), 1 + fld("type"@).len() as int + enc_key("start"@).len() as int + 1 + fld("room"@).len() as int + enc_str(room).len() as int + 1 + fld("name"@).len() as int + enc_str(name).len() as int + 1 + fld("os"@).len() as int + enc_str(os).len() as int + 1 + fld("version"@).len() as int + enc_str(version).len() as int);
    lemma_rt_start_tail5(room, name, os, version, control);
    lemma_comma_then(t, 1 + fld("type"@).len() as int + enc_key("start"@).len() as int + 1 + fld("room"@).len() as int + enc_str(room).len() as int + 1 + fld("name"@).len() as int + enc_str(name).len() as int + 1 + fld("os"@).len() as int + enc_str(os).len() as int + 1 + fld("version"@).len() as int + enc_str(version).len() as int);
    assert(spec_members(t, 1 + fld("type"@).len() as int + enc_key("start"@).len() as int + 1 + fld("room"@).len() as int + enc_str(room).len() as int + 1 + fld("name"@).len() as int + enc_str(name).len() as int + 1 + fld("os"@).len() as int + enc_str(os).len() as int + 1, false) == Some((seq![MemberV { key: "version"@, val: PrimV::Str(version) }].add(seq![MemberV { key: "control"@, val: PrimV::Bool(control) }].add(Seq::<MemberV>::empty())), 1 + fld("type"@).len() as int + enc_key("start"@).len() as int + 1 + fld("room"@).len() as int + enc_str(room).len() as int + 1 + fld("name"@).len() as int + enc_str(name).len() as int + 1 + fld("os"@).len() as int + enc_str(os).len() as int + 1 + fld("version"@).len() as int + enc_str(version).len() as int + 1 + fld("control"@).len() as int + enc_bool(control).len() as int + 1)));
}

#[verifier::rlimit(100)]
#[verifier::spinoff_prover]
proof fn lemma_rt_start_tail5(room: Seq<char>, name: Seq<char>, os: Seq<char>, version: Seq<char>, control: bool)
    ensures
        ({
            let t = spec_encode(MsgV::Start { room, name, os, version, control });
            spec_members(t, 1 + fld("type"@).len() as int + enc_key("start"@).len() as int + 1 + fld("room"@).len() as int + enc_str(room).len() as int + 1 + fld("name"@).len() as int + enc_str(name).len() as int + 1 + fld("os"@).len() as int + enc_str(os).len() as int + 1 + fld("version"@).len() as int + enc_str(version).len() as int + 1, false) == Some((seq![MemberV { key: "control"@, val: PrimV::Bool(control) }].add(Seq::<MemberV>::empty()), 1 + fld("type"@).len() as int + enc_key("start"@).len() as int + 1 + fld("room"@).len() as int + enc_str(room).len() as int + 1 + fld("name"@).len() as int + enc_str(name).len() as int + 1 + fld("os"@).len() as int + enc_str(os).len() as int + 1 + fld("version"@).len() as int + enc_str(version).len() as int + 1 + fld("control"@).len() as int + enc_bool(control).len() as int + 1))
        }),
{
    reveal_strlit("control");
    reveal_strlit("name");
    reveal_strlit("os");
    reveal_strlit("room");
    reveal_strlit("start");
    reveal_strlit("type");
    reveal_strlit("version");
    lemma_rt_start_layout0(room, name, os, version, control);
    lemma_rt_start_layout1(room, name, os, version, control);
    lemma_rt_start_layout2(room, name, os, version, control);
    lemma_rt_start_layout3(room, name, os, version, control);
    lemma_rt_start_layout4(room, name, os, version, control);
    let m = MsgV::Start { room, name, os, version, control };
    let t = spec_encode(m);
    assert(plain_seq("control"@));
    lemma_value_bool(t, 1 + fld("type"@).len() as int + enc_key("start"@).len() as int + 1 + fld("room"@).len() as int + enc_str(room).len() as int + 1 + fld("name"@).len() as int + enc_str(name).len() as int + 1 + fld("os"@).len() as int + enc_str(os).len() as int + 1 + fld("version"@).len() as int + enc_str(version).len() as int + 1 + fld("control"@).len() as int, control);
    assert(spec_value_prim(t, 1 + fld("type"@).len() as int + enc_key("start"@).len() as int + 1 + fld("room"@).len() as int + enc_str(room).len() as int + 1 + fld("name"@).len() as int + enc_str(name).len() as int + 1 + fld("os"@).len() as int + enc_str(os).len() as int + 1 + fld("version"@).len() as int + enc_str(version).len() as int + 1 + fld("control"@).len() as int) == Some((PrimV::Bool(control), 1 + fld("type"@).len() as int + enc_key("start"@).len() as int + 1 + fld("room"@).len() as int + enc_str(room).len() as int + 1 + fld("name"@).len() as int + enc_str(name).len() as int + 1 + fld("os"@).len() as int + enc_str(os).len() as int + 1 + fld("version"@).len() as int + enc_str(version).len() as int + 1 + fld("control"@).len() as int + enc_bool(control).len() as int)));
    lemma_member(t, 1 + fld("type"@).len() as int + enc_key("start"@).len() as int + 1 + fld("room"@).len() as int + enc_str(room).len() as int + 1 + fld("name"@).len() as int + enc_str(name).len() as int + 1 + fld("os"@).len() as int + enc_str(os).len() as int + 1 + fld("version"@).len() as int + enc_str(version).len() as int + 1, false, "control"@, PrimV::Bool(control), 1 + fld("type"@).len() as int + enc_key("start"@).len() as int + 1 + fld("room"@).len() as int + enc_str(room).len() as int + 1 + fld("name"@).len() as int + enc_str(name).len() as int + 1 + fld("os"@).len() as int + enc_str(os).len() as int + 1 + fld("version"@).len() as int + enc_str(version).len() as int + 1 + fld("control"@).len() as int + enc_bool(control).len() as int);
    lemma_close(t, 1 + fld("type"@).len() as int + enc_key("start"@).len() as int + 1 + fld("room"@).len() as int + enc_str(room).len() as int + 1 + fld("name"@).len() as int + enc_str(name).len() as int + 1 + fld("os"@).len() as int + enc_str(os).len() as int + 1 + fld("version"@).len() as int + enc_str(version).len() as int + 1 + fld("control"@).len() as int + enc_bool(control).len() as int);
    assert(spec_members(t, 1 + fld("type"@).len() as int + enc_key("start"@).len() as int + 1 + fld("room"@).len() as int + enc_str(room).len() as int + 1 + fld("name"@).len() as int + enc_str(name).len() as int + 1 + fld("os"@).len() as int + enc_str(os).len() as int + 1 + fld("version"@).len() as int + enc_str(version).len() as int + 1, false) == Some((seq![MemberV { key: "control"@, val: PrimV::Bool(control) }].add(Seq::<MemberV>::empty()), 1 + fld("type"@).len() as int + enc_key("start"@).len() as int + 1 + fld("room"@).len() as int + enc_str(room).len() as int + 1 + fld("name"@).len() as int + enc_str(name).len() as int + 1 + fld("os"@).len() as int + enc_str(os).len() as int + 1 + fld("version"@).len() as int + enc_str(version).len() as int + 1 + fld("control"@).len() as int + enc_bool(control).len() as int + 1)));
}
#[verifier::rlimit(100)]
#[verifier::spinoff_prover]
proof fn lemma_rt_start_parse(room: Seq<char>, name: Seq<char>, os: Seq<char>, version: Seq<char>, control: bool)
    ensures
        ({
            let t = spec_encode(MsgV::Start { room, name, os, version, control });
            spec_decode(t) == spec_msg_of_members(t, start_ms(room, name, os, version, control))
        }),
{
    lemma_rt_start_layout0(room, name, os, version, control);
    lemma_rt_start_layout1(room, name, os, version, control);
    lemma_rt_start_layout2(room, name, os, version, control);
    lemma_rt_start_layout3(room, name, os, version, control);
    lemma_rt_start_layout4(room, name, os, version, control);
    lemma_rt_start_tail0(room, name, os, version, control);
    let m = MsgV::Start { room, name, os, version, control };
    let t = spec_encode(m);
    assert(!is_jws(t[0]));
    assert(spec_ws(t, 0) == 0);
    assert(spec_ws(t, t.len() as int) == t.len());
    assert(start_ms(room, name, os, version, control) == seq![MemberV { key: "type"@, val: PrimV::Str("start"@) }].add(seq![MemberV { key: "room"@, val: PrimV::Str(room) }].add(seq![MemberV { key: "name"@, val: PrimV::Str(name) }].add(seq![MemberV { key: "os"@, val: PrimV::Str(os) }].add(seq![MemberV { key: "version"@, val: PrimV::Str(version) }].add(seq![MemberV { key: "control"@, val: PrimV::Bool(control) }].add(Seq::<MemberV>::empty())))))));
    assert(spec_decode(t) == spec_msg_of_members(t, start_ms(room, name, os, version, control)));
}

#[verifier::rlimit(100)]
#[verifier::spinoff_prover]
proof fn lemma_rt_start(room: Seq<char>, name: Seq<char>, os: Seq<char>, version: Seq<char>, control: bool)
    ensures
        spec_decode(spec_encode(MsgV::Start { room, name, os, version, control })) == Some(MsgV::Start { room, name, os, version, control }),
{
    reveal_strlit("answer");
    reveal_strlit("control");
    reveal_strlit("ice");
    reveal_strlit("join");
    reveal_strlit("join_declined");
    reveal_strlit("name");
    reveal_strlit("offer");
    reveal_strlit("os");
    reveal_strlit("room");
    reveal_strlit("start");
    reveal_strlit("type");
    reveal_strlit("version");
    lemma_rt_start_parse(room, name, os, version, control);
    let m = MsgV::Start { room, name, os, version, control };
    let t = spec_encode(m);
    let ms = start_ms(room, name, os, version, control);
    let sfx1 = seq![MemberV { key: "room"@, val: PrimV::Str(room) }].add(seq![MemberV { key: "name"@, val: PrimV::Str(name) }].add(seq![MemberV { key: "os"@, val: PrimV::Str(os) }].add(seq![MemberV { key: "version"@, val: PrimV::Str(version) }].add(seq![MemberV { key: "control"@, val: PrimV::Bool(control) }].add(Seq::<MemberV>::empty())))));
    let sfx2 = seq![MemberV { key: "name"@, val: PrimV::Str(name) }].add(seq![MemberV { key: "os"@, val: PrimV::Str(os) }].add(seq![MemberV { key: "version"@, val: PrimV::Str(version) }].add(seq![MemberV { key: "control"@, val: PrimV::Bool(control) }].add(Seq::<MemberV>::empty()))));
    let sfx3 = seq![MemberV { key: "os"@, val: PrimV::Str(os) }].add(seq![MemberV { key: "version"@, val: PrimV::Str(version) }].add(seq![MemberV { key: "control"@, val: PrimV::Bool(control) }].add(Seq::<MemberV>::empty())));
    let sfx4 = seq![MemberV { key: "version"@, val: PrimV::Str(version) }].add(seq![MemberV { key: "control"@, val: PrimV::Bool(control) }].add(Seq::<MemberV>::empty()));
    let sfx5 = seq![MemberV { key: "control"@, val: PrimV::Bool(control) }].add(Seq::<MemberV>::empty());
    assert(ms.drop_first() =~= sfx1);
    assert(sfx1.drop_first() =~= sfx2);
    assert(sfx2.drop_first() =~= sfx3);
    assert(sfx3.drop_first() =~= sfx4);
    assert(sfx4.drop_first() =~= sfx5);
    assert("name"@ != "control"@) by {
        assert("name"@.len() != "control"@.len());
    }
    assert("name"@ != "os"@) by {
        assert("name"@.len() != "os"@.len());
    }
    assert("name"@ != "version"@) by {
        assert("name"@.len() != "version"@.len());
    }
    assert("os"@ != "control"@) by {
        assert("os"@.len() != "control"@.len());
    }
    assert("os"@ != "version"@) by {
        assert("os"@.len() != "version"@.len());
    }
    assert("room"@ != "control"@) by {
        assert("room"@.len() != "control"@.len());
    }
    assert("room"@ != "name"@) by {
        assert("room"@[0] != "name"@[0]);
    }
    assert("room"@ != "os"@) by {
        assert("room"@.len() != "os"@.len());
    }
    assert("room"@ != "version"@) by {
        assert("room"@.len() != "version"@.len());
    }
    assert("type"@ != "control"@) by {
        assert("type"@.len() != "control"@.len());
    }
    assert("type"@ != "name"@) by {
        assert("type"@[0] != "name"@[0]);
    }
    assert("type"@ != "os"@) by {
        assert("type"@.len() != "os"@.len());
    }
    assert("type"@ != "room"@) by {
        assert("type"@[0] != "room"@[0]);
    }
    assert("type"@ != "version"@) by {
        assert("type"@.len() != "version"@.len());
    }
    assert("version"@ != "control"@) by {
        assert("version"@[0] != "control"@[0]);
    }
    assert("start"@ != "offer"@) by {
        assert("start"@[0] != "offer"@[0]);
    }
    assert("start"@ != "answer"@) by {
        assert("start"@.len() != "answer"@.len());
    }
    assert("start"@ != "ice"@) by {
        assert("start"@.len() != "ice"@.len());
    }
    assert("start"@ != "join"@) by {
        assert("start"@.len() != "join"@.len());
    }
    assert("start"@ != "join_declined"@) by {
        assert("start"@.len() != "join_declined"@.len());
    }
    assert(field_of(ms, "type"@) == Some(PrimV::Str("start"@))) by {
        assert(ms[0] == MemberV { key: "type"@, val: PrimV::Str("start"@) });
    }
    assert(field_of(ms, "room"@) == field_of(sfx1, "room"@)) by {
        assert(ms[0].key != "room"@);
    }
    assert(field_of(sfx1, "room"@) == Some(PrimV::Str(room))) by {
        assert(sfx1[0] == MemberV { key: "room"@, val: PrimV::Str(room) });
    }
    assert(field_of(ms, "name"@) == field_of(sfx1, "name"@)) by {
        assert(ms[0].key != "name"@);
    }
    assert(field_of(sfx1, "name"@) == field_of(sfx2, "name"@)) by {
        assert(sfx1[0].key != "name"@);
    }
    assert(field_of(sfx2, "name"@) == Some(PrimV::Str(name))) by {
        assert(sfx2[0] == MemberV { key: "name"@, val: PrimV::Str(name) });
    }
    assert(field_of(ms, "os"@) == field_of(sfx1, "os"@)) by {
        assert(ms[0].key != "os"@);
    }
    assert(field_of(sfx1, "os"@) == field_of(sfx2, "os"@)) by {
        assert(sfx1[0].key != "os"@);
    }
    assert(field_of(sfx2, "os"@) == field_of(sfx3, "os"@)) by {
        assert(sfx2[0].key != "os"@);
    }
    assert(field_of(sfx3, "os"@) == Some(PrimV::Str(os))) by {
        assert(sfx3[0] == MemberV { key: "os"@, val: PrimV::Str(os) });
    }
    assert(field_of(ms, "version"@) == field_of(sfx1, "version"@)) by {
        assert(ms[0].key != "version"@);
    }
    assert(field_of(sfx1, "version"@) == field_of(sfx2, "version"@)) by {
        assert(sfx1[0].key != "version"@);
    }
    assert(field_of(sfx2, "version"@) == field_of(sfx3, "version"@)) by {
        assert(sfx2[0].key != "version"@);
    }
    assert(field_of(sfx3, "version"@) == field_of(sfx4, "version"@)) by {
        assert(sfx3[0].key != "version"@);
    }
    assert(field_of(sfx4, "version"@) == Some(PrimV::Str(version))) by {
        assert(sfx4[0] == MemberV { key: "version"@, val: PrimV::Str(version) });
    }
    assert(field_of(ms, "control"@) == field_of(sfx1, "control"@)) by {
        assert(ms[0].key != "control"@);
    }
    assert(field_of(sfx1, "control"@) == field_of(sfx2, "control"@)) by {
        assert(sfx1[0].key != "control"@);
    }
    assert(field_of(sfx2, "control"@) == field_of(sfx3, "control"@)) by {
        assert(sfx2[0].key != "control"@);
    }
    assert(field_of(sfx3, "control"@) == field_of(sfx4, "control"@)) by {
        assert(sfx3[0].key != "control"@);
    }
    assert(field_of(sfx4, "control"@) == field_of(sfx5, "control"@)) by {
        assert(sfx4[0].key != "control"@);
    }
    assert(field_of(sfx5, "control"@) == Some(PrimV::Bool(control))) by {
        assert(sfx5[0] == MemberV { key: "control"@, val: PrimV::Bool(control) });
    }
    assert(req_str(ms, "type"@) == Some("start"@));
    assert(req_str(ms, "room"@) == Some(room));
    assert(req_str(ms, "name"@) == Some(name));
    assert(req_str(ms, "os"@) == Some(os));
    assert(req_str(ms, "version"@) == Some(version));
    assert(req_bool(ms, "control"@) == Some(control));
    assert(spec_msg_of_members(t, ms) == Some(m));
}

/// The member list of an encoded `start_response` frame.
pub open spec fn start_response_ms(room: Seq<char>) -> Seq<MemberV> {
    seq![MemberV { key: "type"@, val: PrimV::Str("start_response"@) }].add(seq![MemberV { key: "room"@, val: PrimV::Str(room) }].add(Seq::<MemberV>::empty()))
}

#[verifier::rlimit(100)]
#[verifier::spinoff_prover]
proof fn lemma_rt_start_response_layout0(room: Seq<char>)
    ensures
        ({
            let t = spec_encode(MsgV::StartResponse { room });
            &&& t.len() as int == 1 + fld("type"@).len() as int + enc_key("start_response"@).len() as int + 1 + fld("room"@).len() as int + enc_str(room).len() as int + 1
            &&& t[0] == '{'
            &&& t.subrange(1, 1 + fld("type"@).len() as int) == fld("type"@)
            &&& t.subrange(1 + fld("type"@).len() as int, 1 + fld("type"@).len() as int + enc_key("start_response"@).len() as int) == enc_key("start_response"@)
        }),
{
    let m = MsgV::StartResponse { room };
    let t = spec_encode(m);
    assert(t == seq!['{'].add(fld("type"@)).add(enc_key("start_response"@)).add(seq![',']).add(fld("room"@)).add(enc_str(room)).add(seq!['}']));
    assert(t.len() as int == 1 + fld("type"@).len() as int + enc_key("start_response"@).len() as int + 1 + fld("room"@).len() as int + enc_str(room).len() as int + 1);
    assert(t[0] == '{');
    assert(t.subrange(1, 1 + fld("type"@).len() as int) =~= fld("type"@));
    assert(t.subrange(1 + fld("type"@).len() as int, 1 + fld("type"@).len() as int + enc_key("start_response"@).len() as int) =~= enc_key("start_response"@));
}

#[verifier::rlimit(100)]
#[verifier::spinoff_prover]
proof fn lemma_rt_start_response_layout1(room: Seq<char>)
    ensures
        ({
            let t = spec_encode(MsgV::StartResponse { room });
            &&& t[1 + fld("type"@).len() as int + enc_key("start_response"@).len() as int] == ','
            &&& t.subrange(1 + fld("type"@).len() as int + enc_key("start_response"@).len() as int + 1, 1 + fld("type"@).len() as int + enc_key("start_response"@).len() as int + 1 + fld("room"@).len() as int) == fld("room"@)
            &&& t.subrange(1 + fld("type"@).len() as int + enc_key("start_response"@).len() as int + 1 + fld("room"@).len() as int, 1 + fld("type"@).len() as int + enc_key("start_response"@).len() as int + 1 + fld("room"@).len() as int + enc_str(room).len() as int) == enc_str(room)
            &&& t[1 + fld("type"@).len() as int + enc_key("start_response"@).len() as int + 1 + fld("room"@).len() as int + enc_str(room).len() as int] == '}'
        }),
{
    let m = MsgV::StartResponse { room };
    let t = spec_encode(m);
    assert(t == seq!['{'].add(fld("type"@)).add(enc_key("start_response"@)).add(seq![',']).add(fld("room"@)).add(enc_str(room)).add(seq!['}']));
    assert(t[1 + fld("type"@).len() as int + enc_key("start_response"@).len() as int] == ',');
    assert(t.subrange(1 + fld("type"@).len() as int + enc_key("start_response"@).len() as int + 1, 1 + fld("type"@).len() as int + enc_key("start_response"@).len() as int + 1 + fld("room"@).len() as int) =~= fld("room"@));
    assert(t.subrange(1 + fld("type"@).len() as int + enc_key("start_response"@).len() as int + 1 + fld("room"@).len() as int, 1 + fld("type"@).len() as int + enc_key("start_response"@).len() as int + 1 + fld("room"@).len() as int + enc_str(room).len() as int) =~= enc_str(room));
    assert(t[1 + fld("type"@).len() as int + enc_key("start_response"@).len() as int + 1 + fld("room"@).len() as int + enc_str(room).len() as int] == '}');
}

#[verifier::rlimit(100)]
#[verifier::spinoff_prover]
proof fn lemma_rt_start_response_tail0(room: Seq<char>)
    ensures
        ({
            let t = spec_encode(MsgV::StartResponse { room });
            spec_members(t, 1, true) == Some((seq![MemberV { key: "type"@, val: PrimV::Str("start_response"@) }].add(seq![MemberV { key: "room"@, val: PrimV::Str(room) }].add(Seq::<MemberV>::empty())), 1 + fld("type"@).len() as int + enc_key("start_response"@).len() as int + 1 + fld("room"@).len() as int + enc_str(room).len() as int + 1))
        }),
{
    reveal_strlit("room");
    reveal_strlit("start_response");
    reveal_strlit("type");
    lemma_rt_start_response_layout0(room);
    lemma_rt_start_response_layout1(room);
    let m = MsgV::StartResponse { room };
    let t = spec_encode(m);
    assert(plain_seq("type"@));
    assert(plain_seq("start_response"@));
    lemma_value_key(t, 1 + fld("type"@).len() as int, "start_response"@);
    assert(spec_value_prim(t, 1 + fld("type"@).len() as int) == Some((PrimV::Str("start_response"@), 1 + fld("type"@).len() as int + enc_key("start_response"@).len() as int)));
    lemma_member(t, 1, true, "type"@, PrimV::Str("start_response"@), 1 + fld("type"@).len() as int + enc_key("start_response"@).len() as int);
    lemma_rt_start_response_tail1(room);
    lemma_comma_then(t, 1 + fld("type"@).len() as int + enc_key("start_response"@).len() as int);
    assert(spec_members(t, 1, true) == Some((seq![MemberV { key: "type"@, val: PrimV::Str("start_response"@) }].add(seq![MemberV { key: "room"@, val: PrimV::Str(room) }].add(Seq::<MemberV>::empty())), 1 + fld("type"@).len() as int + enc_key("start_response"@).len() as int + 1 + fld("room"@).len() as int + enc_str(room).len() as int + 1)));
}

#[verifier::rlimit(100)]
#[verifier::spinoff_prover]
proof fn lemma_rt_start_response_tail1(room: Seq<char>)
    ensures
        ({
            let t = spec_encode(MsgV::StartResponse { room });
            spec_members(t, 1 + fld("type"@).len() as int + enc_key("start_response"@).len() as int + 1, false) == Some((seq![MemberV { key: "room"@, val: PrimV::Str(room) }].add(Seq::<MemberV>::empty()), 1 + fld("type"@).len() as int + enc_key("start_response"@).len() as int + 1 + fld("room"@).len() as int + enc_str(room).len() as int + 1))
        }),
{
    reveal_strlit("room");
    reveal_strlit("start_response");
    reveal_strlit("type");
    lemma_rt_start_response_layout0(room);
    lemma_rt_start_response_layout1(room);
    let m = MsgV::StartResponse { room };
    let t = spec_encode(m);
    assert(plain_seq("room"@));
    lemma_value_str(t, 1 + fld("type"@).len() as int + enc_key("start_response"@).len() as int + 1 + fld("room"@).len() as int, room);
    assert(spec_value_prim(t, 1 + fld("type"@).len() as int + enc_key("start_response"@).len() as int + 1 + fld("room"@).len() as int) == Some((PrimV::Str(room), 1 + fld("type"@).len() as int + enc_key("start_response"@).len() as int + 1 + fld("room"@).len() as int + enc_str(room).len() as int)));
    lemma_member(t, 1 + fld("type"@).len() as int + enc_key("start_response"@).len() as int + 1, false, "room"@, PrimV::Str(room), 1 + fld("type"@).len() as int + enc_key("start_response"@).len() as int + 1 + fld("room"@).len() as int + enc_str(room).len() as int);
    lemma_close(t, 1 + fld("type"@).len() as int + enc_key("start_response"@).len() as int + 1 + fld("room"@).len() as int + enc_str(room).len() as int);
    assert(spec_members(t, 1 + fld("type"@).len() as int + enc_key("start_response"@).len() as int + 1, false) == Some((seq![MemberV { key: "room"@, val: PrimV::Str(room) }].add(Seq::<MemberV>::empty()), 1 + fld("type"@).len() as int + enc_key("start_response"@).len() as int + 1 + fld("room"@).len() as int + enc_str(room).len() as int + 1)));
}
#[verifier::rlimit(100)]
#[verifier::spinoff_prover]
proof fn lemma_rt_start_response_parse(room: Seq<char>)
    ensures
        ({
            let t = spec_encode(MsgV::StartResponse { room });
            spec_decode(t) == spec_msg_of_members(t, start_response_ms(room))
        }),
{
    lemma_rt_start_response_layout0(room);
    lemma_rt_start_response_layout1(room);
    lemma_rt_start_response_tail0(room);
    let m = MsgV::StartResponse { room };
    let t = spec_encode(m);
    assert(!is_jws(t[0]));
    assert(spec_ws(t, 0) == 0);
    assert(spec_ws(t, t.len() as int) == t.len());
    assert(start_response_ms(room) == seq![MemberV { key: "type"@, val: PrimV::Str("start_response"@) }].add(seq![MemberV { key: "room"@, val: PrimV::Str(room) }].add(Seq::<MemberV>::empty())));
    assert(spec_decode(t) == spec_msg_of_members(t, start_response_ms(room)));
}

#[verifier::rlimit(100)]
#[verifier::spinoff_prover]
proof fn lemma_rt_start_response(room: Seq<char>)
    ensures
        spec_decode(spec_encode(MsgV::StartResponse { room })) == Some(MsgV::StartResponse { room }),
{
    reveal_strlit("answer");
    reveal_strlit("ice");
    reveal_strlit("join");
    reveal_strlit("join_declined");
    reveal_strlit("offer");
    reveal_strlit("room");
    reveal_strlit("start");
    reveal_strlit("start_response");
    reveal_strlit("type");
    lemma_rt_start_response_parse(room);
    let m = MsgV::StartResponse { room };
    let t = spec_encode(m);
    let ms = start_response_ms(room);
    let sfx1 = seq![MemberV { key: "room"@, val: PrimV::Str(room) }].add(Seq::<MemberV>::empty());
    assert(ms.drop_first() =~= sfx1);
    assert("type"@ != "room"@) by {
        assert("type"@[0] != "room"@[0]);
    }
    assert("start_response"@ != "offer"@) by {
        assert("start_response"@.len() != "offer"@.len());
    }
    assert("start_response"@ != "answer"@) by {
        assert("start_response"@.len() != "answer"@.len());
    }
    assert("start_response"@ != "ice"@) by {
        assert("start_response"@.len() != "ice"@.len());
    }
    assert("start_response"@ != "join"@) by {
        assert("start_response"@.len() != "join"@.len());
    }
    assert("start_response"@ != "join_declined"@) by {
        assert("start_response"@.len() != "join_declined"@.len());
    }
    assert("start_response"@ != "start"@) by {
        assert("start_response"@.len() != "start"@.len());
    }
    assert(field_of(ms, "type"@) == Some(PrimV::Str("start_response"@))) by {
        assert(ms[0] == MemberV { key: "type"@, val: PrimV::Str("start_response"@) });
    }
    assert(field_of(ms, "room"@) == field_of(sfx1, "room"@)) by {
        assert(ms[0].key != "room"@);
    }
    assert(field_of(sfx1, "room"@) == Some(PrimV::Str(room))) by {
        assert(sfx1[0] == MemberV { key: "room"@, val: PrimV::Str(room) });
    }
    assert(req_str(ms, "type"@) == Some("start_response"@));
    assert(req_str(ms, "room"@) == Some(room));
    assert(spec_msg_of_members(t, ms) == Some(m));
}

/// The member list of an encoded `leave` frame.
pub open spec fn leave_ms(from: Seq<char>) -> Seq<MemberV> {
    seq![MemberV { key: "type"@, val: PrimV::Str("leave"@) }].add(seq![MemberV { key: "from"@, val: PrimV::Str(from) }].add(Seq::<MemberV>::empty()))
}

#[verifier::rlimit(100)]
#[verifier::spinoff_prover]
proof fn lemma_rt_leave_layout0(from: Seq<char>)
    ensures
        ({
            let t = spec_encode(MsgV::Leave { from });
            &&& t.len() as int == 1 + fld("type"@).len() as int + enc_key("leave"@).len() as int + 1 + fld("from"@).len() as int + enc_str(from).len() as int + 1
            &&& t[0] == '{'
            &&& t.subrange(1, 1 + fld("type"@).len() as int) == fld("type"@)
            &&& t.subrange(1 + fld("type"@).len() as int, 1 + fld("type"@).len() as int + enc_key("leave"@).len() as int) == enc_key("leave"@)
        }),
{
    let m = MsgV::Leave { from };
    let t = spec_encode(m);
    assert(t == seq!['{'].add(fld("type"@)).add(enc_key("leave"@)).add(seq![',']).add(fld("from"@)).add(enc_str(from)).add(seq!['}']));
    assert(t.len() as int == 1 + fld("type"@).len() as int + enc_key("leave"@).len() as int + 1 + fld("from"@).len() as int + enc_str(from).len() as int + 1);
    assert(t[0] == '{');
    assert(t.subrange(1, 1 + fld("type"@).len() as int) =~= fld("type"@));
    assert(t.subrange(1 + fld("type"@).len() as int, 1 + fld("type"@).len() as int + enc_key("leave"@).len() as int) =~= enc_key("leave"@));
}

#[verifier::rlimit(100)]
#[verifier::spinoff_prover]
proof fn lemma_rt_leave_layout1(from: Seq<char>)
    ensures
        ({
            let t = spec_encode(MsgV::Leave { from });
            &&& t[1 + fld("type"@).len() as int + enc_key("leave"@).len() as int] == ','
            &&& t.subrange(1 + fld("type"@).len() as int + enc_key("leave"@).len() as int + 1, 1 + fld("type"@).len() as int + enc_key("leave"@).len() as int + 1 + fld("from"@).len() as int) == fld("from"@)
            &&& t.subrange(1 + fld("type"@).len() as int + enc_key("leave"@).len() as int + 1 + fld("from"@).len() as int, 1 + fld("type"@).len() as int + enc_key("leave"@).len() as int + 1 + fld("from"@).len() as int + enc_str(from).len() as int) == enc_str(from)
            &&& t[1 + fld("type"@).len() as int + enc_key("leave"@).len() as int + 1 + fld("from"@).len() as int + enc_str(from).len() as int] == '}'
        }),
{
    let m = MsgV::Leave { from };
    let t = spec_encode(m);
    assert(t == seq!['{'].add(fld("type"@)).add(enc_key("leave"@)).add(seq![',']).add(fld("from"@)).add(enc_str(from)).add(seq!['}']));
    assert(t[1 + fld("type"@).len() as int + enc_key("leave"@).len() as int] == ',');
    assert(t.subrange(1 + fld("type"@).len() as int + enc_key("leave"@).len() as int + 1, 1 + fld("type"@).len() as int + enc_key("leave"@).len() as int + 1 + fld("from"@).len() as int) =~= fld("from"@));
    assert(t.subrange(1 + fld("type"@).len() as int + enc_key("leave"@).len() as int + 1 + fld("from"@).len() as int, 1 + fld("type"@).len() as int + enc_key("leave"@).len() as int + 1 + fld("from"@).len() as int + enc_str(from).len() as int) =~= enc_str(from));
    assert(t[1 + fld("type"@).len() as int + enc_key("leave"@).len() as int + 1 + fld("from"@).len() as int + enc_str(from).len() as int] == '}');
}

#[verifier::rlimit(100)]
#[verifier::spinoff_prover]
proof fn lemma_rt_leave_tail0(from: Seq<char>)
    ensures
        ({
            let t = spec_encode(MsgV::Leave { from });
            spec_members(t, 1, true) == Some((seq![MemberV { key: "type"@, val: PrimV::Str("leave"@) }].add(seq![MemberV { key: "from"@, val: PrimV::Str(from) }].add(Seq::<MemberV>::empty())), 1 + fld("type"@).len() as int + enc_key("leave"@).len() as int + 1 + fld("from"@).len() as int + enc_str(from).len() as int + 1))
        }),
{
    reveal_strlit("from");
    reveal_strlit("leave");
    reveal_strlit("type");
    lemma_rt_leave_layout0(from);
    lemma_rt_leave_layout1(from);
    let m = MsgV::Leave { from };
    let t = spec_encode(m);
    assert(plain_seq("type"@));
    assert(plain_seq("leave"@));
    lemma_value_key(t, 1 + fld("type"@).len() as int, "leave"@);
    assert(spec_value_prim(t, 1 + fld("type"@).len() as int) == Some((PrimV::Str("leave"@), 1 + fld("type"@).len() as int + enc_key("leave"@).len() as int)));
    lemma_member(t, 1, true, "type"@, PrimV::Str("leave"@), 1 + fld("type"@).len() as int + enc_key("leave"@).len() as int);
    lemma_rt_leave_tail1(from);
    lemma_comma_then(t, 1 + fld("type"@).len() as int + enc_key("leave"@).len() as int);
    assert(spec_members(t, 1, true) == Some((seq![MemberV { key: "type"@, val: PrimV::Str("leave"@) }].add(seq![MemberV { key: "from"@, val: PrimV::Str(from) }].add(Seq::<MemberV>::empty())), 1 + fld("type"@).len() as int + enc_key("leave"@).len() as int + 1 + fld("from"@).len() as int + enc_str(from).len() as int + 1)));
}

#[verifier::rlimit(100)]
#[verifier::spinoff_prover]
proof fn lemma_rt_leave_tail1(from: Seq<char>)
    ensures
        ({
            let t = spec_encode(MsgV::Leave { from });
            spec_members(t, 1 + fld("type"@).len() as int + enc_key("leave"@).len() as int + 1, false) == Some((seq![MemberV { key: "from"@, val: PrimV::Str(from) }].add(Seq::<MemberV>::empty()), 1 + fld("type"@).len() as int + enc_key("leave"@).len() as int + 1 + fld("from"@).len() as int + enc_str(from).len() as int + 1))
        }),
{
    reveal_strlit("from");
    reveal_strlit("leave");
    reveal_strlit("type");
    lemma_rt_leave_layout0(from);
    lemma_rt_leave_layout1(from);
    let m = MsgV::Leave { from };
    let t = spec_encode(m);
    assert(plain_seq("from"@));
    lemma_value_str(t, 1 + fld("type"@).len() as int + enc_key("leave"@).len() as int + 1 + fld("from"@).len() as int, from);
    assert(spec_value_prim(t, 1 + fld("type"@).len() as int + enc_key("leave"@).len() as int + 1 + fld("from"@).len() as int) == Some((PrimV::Str(from), 1 + fld("type"@).len() as int + enc_key("leave"@).len() as int + 1 + fld("from"@).len() as int + enc_str(from).len() as int)));
    lemma_member(t, 1 + fld("type"@).len() as int + enc_key("leave"@).len() as int + 1, false, "from"@, PrimV::Str(from), 1 + fld("type"@).len() as int + enc_key("leave"@).len() as int + 1 + fld("from"@).len() as int + enc_str(from).len() as int);
    lemma_close(t, 1 + fld("type"@).len() as int + enc_key("leave"@).len() as int + 1 + fld("from"@).len() as int + enc_str(from).len() as int);
    assert(spec_members(t, 1 + fld("type"@).len() as int + enc_key("leave"@).len() as int + 1, false) == Some((seq![MemberV { key: "from"@, val: PrimV::Str(from) }].add(Seq::<MemberV>::empty()), 1 + fld("type"@).len() as int + enc_key("leave"@).len() as int + 1 + fld("from"@).len() as int + enc_str(from).len() as int + 1)));
}
#[verifier::rlimit(100)]
#[verifier::spinoff_prover]
proof fn lemma_rt_leave_parse(from: Seq<char>)
    ensures
        ({
            let t = spec_encode(MsgV::Leave { from });
            spec_decode(t) == spec_msg_of_members(t, leave_ms(from))
        }),
{
    lemma_rt_leave_layout0(from);
    lemma_rt_leave_layout1(from);
    lemma_rt_leave_tail0(from);
    let m = MsgV::Leave { from };
    let t = spec_encode(m);
    assert(!is_jws(t[0]));
    assert(spec_ws(t, 0) == 0);
    assert(spec_ws(t, t.len() as int) == t.len());
    assert(leave_ms(from) == seq![MemberV { key: "type"@, val: PrimV::Str("leave"@) }].add(seq![MemberV { key: "from"@, val: PrimV::Str(from) }].add(Seq::<MemberV>::empty())));
    assert(spec_decode(t) == spec_msg_of_members(t, leave_ms(from)));
}

#[verifier::rlimit(100)]
#[verifier::spinoff_prover]
proof fn lemma_rt_leave(from: Seq<char>)
    ensures
        spec_decode(spec_encode(MsgV::Leave { from })) == Some(MsgV::Leave { from }),
{
    reveal_strlit("answer");
    reveal_strlit("from");
    reveal_strlit("ice");
    reveal_strlit("join");
    reveal_strlit("join_declined");
    reveal_strlit("leave");
    reveal_strlit("offer");
    reveal_strlit("start");
    reveal_strlit("start_response");
    reveal_strlit("type");
    lemma_rt_leave_parse(from);
    let m = MsgV::Leave { from };
    let t = spec_encode(m);
    let ms = leave_ms(from);
    let sfx1 = seq![MemberV { key: "from"@, val: PrimV::Str(from) }].add(Seq::<MemberV>::empty());
    assert(ms.drop_first() =~= sfx1);
    assert("type"@ != "from"@) by {
        assert("type"@[0] != "from"@[0]);
    }
    assert("leave"@ != "offer"@) by {
        assert("leave"@[0] != "offer"@[0]);
    }
    assert("leave"@ != "answer"@) by {
        assert("leave"@.len() != "answer"@.len());
    }
    assert("leave"@ != "ice"@) by {
        assert("leave"@.len() != "ice"@.len());
    }
    assert("leave"@ != "join"@) by {
        assert("leave"@.len() != "join"@.len());
    }
    assert("leave"@ != "join_declined"@) by {
        assert("leave"@.len() != "join_declined"@.len());
    }
    assert("leave"@ != "start"@) by {
        assert("leave"@[0] != "start"@[0]);
    }
    assert("leave"@ != "start_response"@) by {
        assert("leave"@.len() != "start_response"@.len());
    }
    assert(field_of(ms, "type"@) == Some(PrimV::Str("leave"@))) by {
        assert(ms[0] == MemberV { key: "type"@, val: PrimV::Str("leave"@) });
    }
    assert(field_of(ms, "from"@) == field_of(sfx1, "from"@)) by {
        assert(ms[0].key != "from"@);
    }
    assert(field_of(sfx1, "from"@) == Some(PrimV::Str(from))) by {
        assert(sfx1[0] == MemberV { key: "from"@, val: PrimV::Str(from) });
    }
    assert(req_str(ms, "type"@) == Some("leave"@));
    assert(req_str(ms, "from"@) == Some(from));
    assert(spec_msg_of_members(t, ms) == Some(m));
}

/// The member list of an encoded `server_closed` frame.
pub open spec fn server_closed_ms(to: Seq<char>, room: Seq<char>) -> Seq<MemberV> {
    seq![MemberV { key: "type"@, val: PrimV::Str("server_closed"@) }].add(seq![MemberV { key: "to"@, val: PrimV::Str(to) }].add(seq![MemberV { key: "room"@, val: PrimV::Str(room) }].add(Seq::<MemberV>::empty())))
}

#[verifier::rlimit(100)]
#[verifier::spinoff_prover]
proof fn lemma_rt_server_closed_layout0(to: Seq<char>, room: Seq<char>)
    ensures
        ({
            let t = spec_encode(MsgV::ServerClosed { to, room });
            &&& t.len() as int == 1 + fld("type"@).len() as int + enc_key("server_closed"@).len() as int + 1 + fld("to"@).len() as int + enc_str(to).len() as int + 1 + fld("room"@).len() as int + enc_str(room).len() as int + 1
            &&& t[0] == '{'
            &&& t.subrange(1, 1 + fld("type"@).len() as int) == fld("type"@)
            &&& t.subrange(1 + fld("type"@).len() as int, 1 + fld("type"@).len() as int + enc_key("server_closed"@).len() as int) == enc_key("server_closed"@)
        }),
{
    let m = MsgV::ServerClosed { to, room };
    let t = spec_encode(m);
    assert(t == seq!['{'].add(fld("type"@)).add(enc_key("server_closed"@)).add(seq![',']).add(fld("to"@)).add(enc_str(to)).add(seq![',']).add(fld("room"@)).add(enc_str(room)).add(seq!['}']));
    assert(t.len() as int == 1 + fld("type"@).len() as int + enc_key("server_closed"@).len() as int + 1 + fld("to"@).len() as int + enc_str(to).len() as int + 1 + fld("room"@).len() as int + enc_str(room).len() as int + 1);
    assert(t[0] == '{');
    assert(t.subrange(1, 1 + fld("type"@).len() as int) =~= fld("type"@));
    assert(t.subrange(1 + fld("type"@).len() as int, 1 + fld("type"@).len() as int + enc_key("server_closed"@).len() as int) =~= enc_key("server_closed"@));
}

#[verifier::rlimit(100)]
#[verifier::spinoff_prover]
proof fn lemma_rt_server_closed_layout1(to: Seq<char>, room: Seq<char>)
    ensures
        ({
            let t = spec_encode(MsgV::ServerClosed { to, room });
            &&& t[1 + fld("type"@).len() as int + enc_key("server_closed"@).len() as int] == ','
            &&& t.subrange(1 + fld("type"@).len() as int + enc_key("server_closed"@).len() as int + 1, 1 + fld("type"@).len() as int + enc_key("server_closed"@).len() as int + 1 + fld("to"@).len() as int) == fld("to"@)
            &&& t.subrange(1 + fld("type"@).len() as int + enc_key("server_closed"@).len() as int + 1 + fld("to"@).len() as int, 1 + fld("type"@).len() as int + enc_key("server_closed"@).len() as int + 1 + fld("to"@).len() as int + enc_str(to).len() as int) == enc_str(to)
            &&& t[1 + fld("type"@).len() as int + enc_key("server_closed"@).len() as int + 1 + fld("to"@).len() as int + enc_str(to).len() as int] == ','
        }),
{
    let m = MsgV::ServerClosed { to, room };
    let t = spec_encode(m);
    assert(t == seq!['{'].add(fld("type"@)).add(enc_key("server_closed"@)).add(seq![',']).add(fld("to"@)).add(enc_str(to)).add(seq![',']).add(fld("room"@)).add(enc_str(room)).add(seq!['}']));
    assert(t[1 + fld("type"@).len() as int + enc_key("server_closed"@).len() as int] == ',');
    assert(t.subrange(1 + fld("type"@).len() as int + enc_key("server_closed"@).len() as int + 1, 1 + fld("type"@).len() as int + enc_key("server_closed"@).len() as int + 1 + fld("to"@).len() as int) =~= fld("to"@));
    assert(t.subrange(1 + fld("type"@).len() as int + enc_key("server_closed"@).len() as int + 1 + fld("to"@).len() as int, 1 + fld("type"@).len() as int + enc_key("server_closed"@).len() as int + 1 + fld("to"@).len() as int + enc_str(to).len() as int) =~= enc_str(to));
    assert(t[1 + fld("type"@).len() as int + enc_key("server_closed"@).len() as int + 1 + fld("to"@).len() as int + enc_str(to).len() as int] == ',');
}

#[verifier::rlimit(100)]
#[verifier::spinoff_prover]
proof fn lemma_rt_server_closed_layout2(to: Seq<char>, room: Seq<char>)
    ensures
        ({
            let t = spec_encode(MsgV::ServerClosed { to, room });
            &&& t.subrange(1 + fld("type"@).len() as int + enc_key("server_closed"@).len() as int + 1 + fld("to"@).len() as int + enc_str(to).len() as int + 1, 1 + fld("type"@).len() as int + enc_key("server_closed"@).len() as int + 1 + fld("to"@).len() as int + enc_str(to).len() as int + 1 + fld("room"@).len() as int) == fld("room"@)
            &&& t.subrange(1 + fld("type"@).len() as int + enc_key("server_closed"@).len() as int + 1 + fld("to"@).len() as int + enc_str(to).len() as int + 1 + fld("room"@).len() as int, 1 + fld("type"@).len() as int + enc_key("server_closed"@).len() as int + 1 + fld("to"@).len() as int + enc_str(to).len() as int + 1 + fld("room"@).len() as int + enc_str(room).len() as int) == enc_str(room)
            &&& t[1 + fld("type"@).len() as int + enc_key("server_closed"@).len() as int + 1 + fld("to"@).len() as int + enc_str(to).len() as int + 1 + fld("room"@).len() as int + enc_str(room).len() as int] == '}'
        }),
{
    let m = MsgV::ServerClosed { to, room };
    let t = spec_encode(m);
    assert(t == seq!['{'].add(fld("type"@)).add(enc_key("server_closed"@)).add(seq![',']).add(fld("to"@)).add(enc_str(to)).add(seq![',']).add(fld("room"@)).add(enc_str(room)).add(seq!['}']));
    assert(t.subrange(1 + fld("type"@).len() as int + enc_key("server_closed"@).len() as int + 1 + fld("to"@).len() as int + enc_str(to).len() as int + 1, 1 + fld("type"@).len() as int + enc_key("server_closed"@).len() as int + 1 + fld("to"@).len() as int + enc_str(to).len() as int + 1 + fld("room"@).len() as int) =~= fld("room"@));
    assert(t.subrange(1 + fld("type"@).len() as int + enc_key("server_closed"@).len() as int + 1 + fld("to"@).len() as int + enc_str(to).len() as int + 1 + fld("room"@).len() as int, 1 + fld("type"@).len() as int + enc_key("server_closed"@).len() as int + 1 + fld("to"@).len() as int + enc_str(to).len() as int + 1 + fld("room"@).len() as int + enc_str(room).len() as int) =~= enc_str(room));
    assert(t[1 + fld("type"@).len() as int + enc_key("server_closed"@).len() as int + 1 + fld("to"@).len() as int + enc_str(to).len() as int + 1 + fld("room"@).len() as int + enc_str(room).len() as int] == '}');
}

#[verifier::rlimit(100)]
#[verifier::spinoff_prover]
proof fn lemma_rt_server_closed_tail0(to: Seq<char>, room: Seq<char>)
    ensures
        ({
            let t = spec_encode(MsgV::ServerClosed { to, room });
            spec_members(t, 1, true) == Some((seq![MemberV { key: "type"@, val: PrimV::Str("server_closed"@) }].add(seq![MemberV { key: "to"@, val: PrimV::Str(to) }].add(seq![MemberV { key: "room"@, val: PrimV::Str(room) }].add(Seq::<MemberV>::empty()))), 1 + fld("type"@).len() as int + enc_key("server_closed"@).len() as int + 1 + fld("to"@).len() as int + enc_str(to).len() as int + 1 + fld("room"@).len() as int + enc_str(room).len() as int + 1))
        }),
{
    reveal_strlit("room");
    reveal_strlit("server_closed");
    reveal_strlit("to");
    reveal_strlit("type");
    lemma_rt_server_closed_layout0(to, room);
    lemma_rt_server_closed_layout1(to, room);
    lemma_rt_server_closed_layout2(to, room);
    let m = MsgV::ServerClosed { to, room };
    let t = spec_encode(m);
    assert(plain_seq("type"@));
    assert(plain_seq("server_closed"@));
    lemma_value_key(t, 1 + fld("type"@).len() as int, "server_closed"@);
    assert(spec_value_prim(t, 1 + fld("type"@).len() as int) == Some((PrimV::Str("server_closed"@), 1 + fld("type"@).len() as int + enc_key("server_closed"@).len() as int)));
    lemma_member(t, 1, true, "type"@, PrimV::Str("server_closed"@), 1 + fld("type"@).len() as int + enc_key("server_closed"@).len() as int);
    lemma_rt_server_closed_tail1(to, room);
    lemma_comma_then(t, 1 + fld("type"@).len() as int + enc_key("server_closed"@).len() as int);
    assert(spec_members(t, 1, true) == Some((seq![MemberV { key: "type"@, val: PrimV::Str("server_closed"@) }].add(seq![MemberV { key: "to"@, val: PrimV::Str(to) }].add(seq![MemberV { key: "room"@, val: PrimV::Str(room) }].add(Seq::<MemberV>::empty()))), 1 + fld("type"@).len() as int + enc_key("server_closed"@).len() as int + 1 + fld("to"@).len() as int + enc_str(to).len() as int + 1 + fld("room"@).len() as int + enc_str(room).len() as int + 1)));
}

#[verifier::rlimit(100)]
#[verifier::spinoff_prover]
proof fn lemma_rt_server_closed_tail1(to: Seq<char>, room: Seq<char>)
    ensures
        ({
            let t = spec_encode(MsgV::ServerClosed { to, room });
            spec_members(t, 1 + fld("type"@).len() as int + enc_key("server_closed"@).len() as int + 1, false) == Some((seq![MemberV { key: "to"@, val: PrimV::Str(to) }].add(seq![MemberV { key: "room"@, val: PrimV::Str(room) }].add(Seq::<MemberV>::empty())), 1 + fld("type"@).len() as int + enc_key("server_closed"@).len() as int + 1 + fld("to"@).len() as int + enc_str(to).len() as int + 1 + fld("room"@).len() as int + enc_str(room).len() as int + 1))
        }),
{
    reveal_strlit("room");
    reveal_strlit("server_closed");
    reveal_strlit("to");
    reveal_strlit("type");
    lemma_rt_server_closed_layout0(to, room);
    lemma_rt_server_closed_layout1(to, room);
    lemma_rt_server_closed_layout2(to, room);
    let m = MsgV::ServerClosed { to, room };
    let t = spec_encode(m);
    assert(plain_seq("to"@));
    lemma_value_str(t, 1 + fld("type"@).len() as int + enc_key("server_closed"@).len() as int + 1 + fld("to"@).len() as int, to);
    assert(spec_value_prim(t, 1 + fld("type"@).len() as int + enc_key("server_closed"@).len() as int + 1 + fld("to"@).len() as int) == Some((PrimV::Str(to), 1 + fld("type"@).len() as int + enc_key("server_closed"@).len() as int + 1 + fld("to"@).len() as int + enc_str(to).len() as int)));
    lemma_member(t, 1 + fld("type"@).len() as int + enc_key("server_closed"@).len() as int + 1, false, "to"@, PrimV::Str(to), 1 + fld("type"@).len() as int + enc_key("server_closed"@).len() as int + 1 + fld("to"@).len() as int + enc_str(to).len() as int);
    lemma_rt_server_closed_tail2(to, room);
    lemma_comma_then(t, 1 + fld("type"@).len() as int + enc_key("server_closed"@).len() as int + 1 + fld("to"@).len() as int + enc_str(to).len() as int);
    assert(spec_members(t, 1 + fld("type"@).len() as int + enc_key("server_closed"@).len() as int + 1, false) == Some((seq![MemberV { key: "to"@, val: PrimV::Str(to) }].add(seq![MemberV { key: "room"@, val: PrimV::Str(room) }].add(Seq::<MemberV>::empty())), 1 + fld("type"@).len() as int + enc_key("server_closed"@).len() as int + 1 + fld("to"@).len() as int + enc_str(to).len() as int + 1 + fld("room"@).len() as int + enc_str(room).len() as int + 1)));
}

#[verifier::rlimit(100)]
#[verifier::spinoff_prover]
proof fn lemma_rt_server_closed_tail2(to: Seq<char>, room: Seq<char>)
    ensures
        ({
            let t = spec_encode(MsgV::ServerClosed { to, room });
            spec_members(t, 1 + fld("type"@).len() as int + enc_key("server_closed"@).len() as int + 1 + fld("to"@).len() as int + enc_str(to).len() as int + 1, false) == Some((seq![MemberV { key: "room"@, val: PrimV::Str(room) }].add(Seq::<MemberV>::empty()), 1 + fld("type"@).len() as int + enc_key("server_closed"@).len() as int + 1 + fld("to"@).len() as int + enc_str(to).len() as int + 1 + fld("room"@).len() as int + enc_str(room).len() as int + 1))
        }),
{
    reveal_strlit("room");
    reveal_strlit("server_closed");
    reveal_strlit("to");
    reveal_strlit("type");
    lemma_rt_server_closed_layout0(to, room);
    lemma_rt_server_closed_layout1(to, room);
    lemma_rt_server_closed_layout2(to, room);
    let m = MsgV::ServerClosed { to, room };
    let t = spec_encode(m);
    assert(plain_seq("room"@));
    lemma_value_str(t, 1 + fld("type"@).len() as int + enc_key("server_closed"@).len() as int + 1 + fld("to"@).len() as int + enc_str(to).len() as int + 1 + fld("room"@).len() as int, room);
    assert(spec_value_prim(t, 1 + fld("type"@).len() as int + enc_key("server_closed"@).len() as int + 1 + fld("to"@).len() as int + enc_str(to).len() as int + 1 + fld("room"@).len() as int) == Some((PrimV::Str(room), 1 + fld("type"@).len() as int + enc_key("server_closed"@).len() as int + 1 + fld("to"@).len() as int + enc_str(to).len() as int + 1 + fld("room"@).len() as int + enc_str(room).len() as int)));
    lemma_member(t, 1 + fld("type"@).len() as int + enc_key("server_closed"@).len() as int + 1 + fld("to"@).len() as int + enc_str(to).len() as int + 1, false, "room"@, PrimV::Str(room), 1 + fld("type"@).len() as int + enc_key("server_closed"@).len() as int + 1 + fld("to"@).len() as int + enc_str(to).len() as int + 1 + fld("room"@).len() as int + enc_str(room).len() as int);
    lemma_close(t, 1 + fld("type"@).len() as int + enc_key("server_closed"@).len() as int + 1 + fld("to"@).len() as int + enc_str(to).len() as int + 1 + fld("room"@).len() as int + enc_str(room).len() as int);
    assert(spec_members(t, 1 + fld("type"@).len() as int + enc_key("server_closed"@).len() as int + 1 + fld("to"@).len() as int + enc_str(to).len() as int + 1, false) == Some((seq![MemberV { key: "room"@, val: PrimV::Str(room) }].add(Seq::<MemberV>::empty()), 1 + fld("type"@).len() as int + enc_key("server_closed"@).len() as int + 1 + fld("to"@).len() as int + enc_str(to).len() as int + 1 + fld("room"@).len() as int + enc_str(room).len() as int + 1)));
}
#[verifier::rlimit(100)]
#[verifier::spinoff_prover]
proof fn lemma_rt_server_closed_parse(to: Seq<char>, room: Seq<char>)
    ensures
        ({
            let t = spec_encode(MsgV::ServerClosed { to, room });
            spec_decode(t) == spec_msg_of_members(t, server_closed_ms(to, room))
        }),
{
    lemma_rt_server_closed_layout0(to, room);
    lemma_rt_server_closed_layout1(to, room);
    lemma_rt_server_closed_layout2(to, room);
    lemma_rt_server_closed_tail0(to, room);
    let m = MsgV::ServerClosed { to, room };
    let t = spec_encode(m);
    assert(!is_jws(t[0]));
    assert(spec_ws(t, 0) == 0);
    assert(spec_ws(t, t.len() as int) == t.len());
    assert(server_closed_ms(to, room) == seq![MemberV { key: "type"@, val: PrimV::Str("server_closed"@) }].add(seq![MemberV { key: "to"@, val: PrimV::Str(to) }].add(seq![MemberV { key: "room"@, val: PrimV::Str(room) }].add(Seq::<MemberV>::empty()))));
    assert(spec_decode(t) == spec_msg_of_members(t, server_closed_ms(to, room)));
}

#[verifier::rlimit(100)]
#[verifier::spinoff_prover]
proof fn lemma_rt_server_closed(to: Seq<char>, room: Seq<char>)
    ensures
        spec_decode(spec_encode(MsgV::ServerClosed { to, room })) == Some(MsgV::ServerClosed { to, room }),
{
    reveal_strlit("answer");
    reveal_strlit("ice");
    reveal_strlit("join");
    reveal_strlit("join_declined");
    reveal_strlit("leave");
    reveal_strlit("offer");
    reveal_strlit("room");
    reveal_strlit("server_closed");
    reveal_strlit("start");
    reveal_strlit("start_response");
    reveal_strlit("to");
    reveal_strlit("type");
    lemma_rt_server_closed_parse(to, room);
    let m = MsgV::ServerClosed { to, room };
    let t = spec_encode(m);
    let ms = server_closed_ms(to, room);
    let sfx1 = seq![MemberV { key: "to"@, val: PrimV::Str(to) }].add(seq![MemberV { key: "room"@, val: PrimV::Str(room) }].add(Seq::<MemberV>::empty()));
    let sfx2 = seq![MemberV { key: "room"@, val: PrimV::Str(room) }].add(Seq::<MemberV>::empty());
    assert(ms.drop_first() =~= sfx1);
    assert(sfx1.drop_first() =~= sfx2);
    assert("to"@ != "room"@) by {
        assert("to"@.len() != "room"@.len());
    }
    assert("type"@ != "room"@) by {
        assert("type"@[0] != "room"@[0]);
    }
    assert("type"@ != "to"@) by {
        assert("type"@.len() != "to"@.len());
    }
    assert("server_closed"@ != "offer"@) by {
        assert("server_closed"@.len() != "offer"@.len());
    }
    assert("server_closed"@ != "answer"@) by {
        assert("server_closed"@.len() != "answer"@.len());
    }
    assert("server_closed"@ != "ice"@) by {
        assert("server_closed"@.len() != "ice"@.len());
    }
    assert("server_closed"@ != "join"@) by {
        assert("server_closed"@.len() != "join"@.len());
    }
    assert("server_closed"@ != "join_declined"@) by {
        assert("server_closed"@[0] != "join_declined"@[0]);
    }
    assert("server_closed"@ != "start"@) by {
        assert("server_closed"@.len() != "start"@.len());
    }
    assert("server_closed"@ != "start_response"@) by {
        assert("server_closed"@.len() != "start_response"@.len());
    }
    assert("server_closed"@ != "leave"@) by {
        assert("server_closed"@.len() != "leave"@.len());
    }
    assert(field_of(ms, "type"@) == Some(PrimV::Str("server_closed"@))) by {
        assert(ms[0] == MemberV { key: "type"@, val: PrimV::Str("server_closed"@) });
    }
    assert(field_of(ms, "to"@) == field_of(sfx1, "to"@)) by {
        assert(ms[0].key != "to"@);
    }
    assert(field_of(sfx1, "to"@) == Some(PrimV::Str(to))) by {
        assert(sfx1[0] == MemberV { key: "to"@, val: PrimV::Str(to) });
    }
    assert(field_of(ms, "room"@) == field_of(sfx1, "room"@)) by {
        assert(ms[0].key != "room"@);
    }
    assert(field_of(sfx1, "room"@) == field_of(sfx2, "room"@)) by {
        assert(sfx1[0].key != "room"@);
    }
    assert(field_of(sfx2, "room"@) == Some(PrimV::Str(room))) by {
        assert(sfx2[0] == MemberV { key: "room"@, val: PrimV::Str(room) });
    }
    assert(req_str(ms, "type"@) == Some("server_closed"@));
    assert(req_str(ms, "to"@) == Some(to));
    assert(req_str(ms, "room"@) == Some(room));
    assert(spec_msg_of_members(t, ms) == Some(m));
}

/// The member list of an encoded `keep_alive` frame.
pub open spec fn keep_alive_ms() -> Seq<MemberV> {
    seq![MemberV { key: "type"@, val: PrimV::Str("keep_alive"@) }].add(Seq::<MemberV>::empty())
}

#[verifier::rlimit(100)]
#[verifier::spinoff_prover]
proof fn lemma_rt_keep_alive_layout0()
    ensures
        ({
            let t = spec_encode(MsgV::KeepAlive);
            &&& t.len() as int == 1 + fld("type"@).len() as int + enc_key("keep_alive"@).len() as int + 1
            &&& t[0] == '{'
            &&& t.subrange(1, 1 + fld("type"@).len() as int) == fld("type"@)
            &&& t.subrange(1 + fld("type"@).len() as int, 1 + fld("type"@).len() as int + enc_key("keep_alive"@).len() as int) == enc_key("keep_alive"@)
        }),
{
    let m = MsgV::KeepAlive;
    let t = spec_encode(m);
    assert(t == seq!['{'].add(fld("type"@)).add(enc_key("keep_alive"@)).add(seq!['}']));
    assert(t.len() as int == 1 + fld("type"@).len() as int + enc_key("keep_alive"@).len() as int + 1);
    assert(t[0] == '{');
    assert(t.subrange(1, 1 + fld("type"@).len() as int) =~= fld("type"@));
    assert(t.subrange(1 + fld("type"@).len() as int, 1 + fld("type"@).len() as int + enc_key("keep_alive"@).len() as int) =~= enc_key("keep_alive"@));
}

#[verifier::rlimit(100)]
#[verifier::spinoff_prover]
proof fn lemma_rt_keep_alive_layout1()
    ensures
        ({
            let t = spec_encode(MsgV::KeepAlive);
            &&& t[1 + fld("type"@).len() as int + enc_key("keep_alive"@).len() as int] == '}'
        }),
{
    let m = MsgV::KeepAlive;
    let t = spec_encode(m);
    assert(t == seq!['{'].add(fld("type"@)).add(enc_key("keep_alive"@)).add(seq!['}']));
    assert(t[1 + fld("type"@).len() as int + enc_key("keep_alive"@).len() as int] == '}');
}

#[verifier::rlimit(100)]
#[verifier::spinoff_prover]
proof fn lemma_rt_keep_alive_tail0()
    ensures
        ({
            let t = spec_encode(MsgV::KeepAlive);
            spec_members(t, 1, true) == Some((seq![MemberV { key: "type"@, val: PrimV::Str("keep_alive"@) }].add(Seq::<MemberV>::empty()), 1 + fld("type"@).len() as int + enc_key("keep_alive"@).len() as int + 1))
        }),
{
    reveal_strlit("keep_alive");
    reveal_strlit("type");
    lemma_rt_keep_alive_layout0();
    lemma_rt_keep_alive_layout1();
    let m = MsgV::KeepAlive;
    let t = spec_encode(m);
    assert(plain_seq("type"@));
    assert(plain_seq("keep_alive"@));
    lemma_value_key(t, 1 + fld("type"@).len() as int, "keep_alive"@);
    assert(spec_value_prim(t, 1 + fld("type"@).len() as int) == Some((PrimV::Str("keep_alive"@), 1 + fld("type"@).len() as int + enc_key("keep_alive"@).len() as int)));
    lemma_member(t, 1, true, "type"@, PrimV::Str("keep_alive"@), 1 + fld("type"@).len() as int + enc_key("keep_alive"@).len() as int);
    lemma_close(t, 1 + fld("type"@).len() as int + enc_key("keep_alive"@).len() as int);
    assert(spec_members(t, 1, true) == Some((seq![MemberV { key: "type"@, val: PrimV::Str("keep_alive"@) }].add(Seq::<MemberV>::empty()), 1 + fld("type"@).len() as int + enc_key("keep_alive"@).len() as int + 1)));
}
#[verifier::rlimit(100)]
#[verifier::spinoff_prover]
proof fn lemma_rt_keep_alive_parse()
    ensures
        ({
            let t = spec_encode(MsgV::KeepAlive);
            spec_decode(t) == spec_msg_of_members(t, keep_alive_ms())
        }),
{
    lemma_rt_keep_alive_layout0();
    lemma_rt_keep_alive_layout1();
    lemma_rt_keep_alive_tail0();
    let m = MsgV::KeepAlive;
    let t = spec_encode(m);
    assert(!is_jws(t[0]));
    assert(spec_ws(t, 0) == 0);
    assert(spec_ws(t, t.len() as int) == t.len());
    assert(keep_alive_ms() == seq![MemberV { key: "type"@, val: PrimV::Str("keep_alive"@) }].add(Seq::<MemberV>::empty()));
    assert(spec_decode(t) == spec_msg_of_members(t, keep_alive_ms()));
}

#[verifier::rlimit(100)]
#[verifier::spinoff_prover]
proof fn lemma_rt_keep_alive()
    ensures
        spec_decode(spec_encode(MsgV::KeepAlive)) == Some(MsgV::KeepAlive),
{
    reveal_strlit("answer");
    reveal_strlit("ice");
    reveal_strlit("join");
    reveal_strlit("join_declined");
    reveal_strlit("keep_alive");
    reveal_strlit("leave");
    reveal_strlit("offer");
    reveal_strlit("server_closed");
    reveal_strlit("start");
    reveal_strlit("start_response");
    reveal_strlit("type");
    lemma_rt_keep_alive_parse();
    let m = MsgV::KeepAlive;
    let t = spec_encode(m);
    let ms = keep_alive_ms();
    assert("keep_alive"@ != "offer"@) by {
        assert("keep_alive"@.len() != "offer"@.len());
    }
    assert("keep_alive"@ != "answer"@) by {
        assert("keep_alive"@.len() != "answer"@.len());
    }
    assert("keep_alive"@ != "ice"@) by {
        assert("keep_alive"@.len() != "ice"@.len());
    }
    assert("keep_alive"@ != "join"@) by {
        assert("keep_alive"@.len() != "join"@.len());
    }
    assert("keep_alive"@ != "join_declined"@) by {
        assert("keep_alive"@.len() != "join_declined"@.len());
    }
    assert("keep_alive"@ != "start"@) by {
        assert("keep_alive"@.len() != "start"@.len());
    }
    assert("keep_alive"@ != "start_response"@) by {
        assert("keep_alive"@.len() != "start_response"@.len());
    }
    assert("keep_alive"@ != "leave"@) by {
        assert("keep_alive"@.len() != "leave"@.len());
    }
    assert("keep_alive"@ != "server_closed"@) by {
        assert("keep_alive"@.len() != "server_closed"@.len());
    }
    assert(field_of(ms, "type"@) == Some(PrimV::Str("keep_alive"@))) by {
        assert(ms[0] == MemberV { key: "type"@, val: PrimV::Str("keep_alive"@) });
    }
    assert(req_str(ms, "type"@) == Some("keep_alive"@));
    assert(spec_msg_of_members(t, ms) == Some(m));
}

/// The member list of an encoded `ice_servers` frame.
pub open spec fn ice_servers_ms() -> Seq<MemberV> {
    seq![MemberV { key: "type"@, val: PrimV::Str("ice_servers"@) }].add(Seq::<MemberV>::empty())
}

#[verifier::rlimit(100)]
#[verifier::spinoff_prover]
proof fn lemma_rt_ice_servers_layout0()
    ensures
        ({
            let t = spec_encode(MsgV::IceServers);
            &&& t.len() as int == 1 + fld("type"@).len() as int + enc_key("ice_servers"@).len() as int + 1
            &&& t[0] == '{'
            &&& t.subrange(1, 1 + fld("type"@).len() as int) == fld("type"@)
            &&& t.subrange(1 + fld("type"@).len() as int, 1 + fld("type"@).len() as int + enc_key("ice_servers"@).len() as int) == enc_key("ice_servers"@)
        }),
{
    let m = MsgV::IceServers;
    let t = spec_encode(m);
    assert(t == seq!['{'].add(fld("type"@)).add(enc_key("ice_servers"@)).add(seq!['}']));
    assert(t.len() as int == 1 + fld("type"@).len() as int + enc_key("ice_servers"@).len() as int + 1);
    assert(t[0] == '{');
    assert(t.subrange(1, 1 + fld("type"@).len() as int) =~= fld("type"@));
    assert(t.subrange(1 + fld("type"@).len() as int, 1 + fld("type"@).len() as int + enc_key("ice_servers"@).len() as int) =~= enc_key("ice_servers"@));
}

#[verifier::rlimit(100)]
#[verifier::spinoff_prover]
proof fn lemma_rt_ice_servers_layout1()
    ensures
        ({
            let t = spec_encode(MsgV::IceServers);
            &&& t[1 + fld("type"@).len() as int + enc_key("ice_servers"@).len() as int] == '}'
        }),
{
    let m = MsgV::IceServers;
    let t = spec_encode(m);
    assert(t == seq!['{'].add(fld("type"@)).add(enc_key("ice_servers"@)).add(seq!['}']));
    assert(t[1 + fld("type"@).len() as int + enc_key("ice_servers"@).len() as int] == '}');
}

#[verifier::rlimit(100)]
#[verifier::spinoff_prover]
proof fn lemma_rt_ice_servers_tail0()
    ensures
        ({
            let t = spec_encode(MsgV::IceServers);
            spec_members(t, 1, true) == Some((seq![MemberV { key: "type"@, val: PrimV::Str("ice_servers"@) }].add(Seq::<MemberV>::empty()), 1 + fld("type"@).len() as int + enc_key("ice_servers"@).len() as int + 1))
        }),
{
    reveal_strlit("ice_servers");
    reveal_strlit("type");
    lemma_rt_ice_servers_layout0();
    lemma_rt_ice_servers_layout1();
    let m = MsgV::IceServers;
    let t = spec_encode(m);
    assert(plain_seq("type"@));
    assert(plain_seq("ice_servers"@));
    lemma_value_key(t, 1 + fld("type"@).len() as int, "ice_servers"@);
    assert(spec_value_prim(t, 1 + fld("type"@).len() as int) == Some((PrimV::Str("ice_servers"@), 1 + fld("type"@).len() as int + enc_key("ice_servers"@).len() as int)));
    lemma_member(t, 1, true, "type"@, PrimV::Str("ice_servers"@), 1 + fld("type"@).len() as int + enc_key("ice_servers"@).len() as int);
    lemma_close(t, 1 + fld("type"@).len() as int + enc_key("ice_servers"@).len() as int);
    assert(spec_members(t, 1, true) == Some((seq![MemberV { key: "type"@, val: PrimV::Str("ice_servers"@) }].add(Seq::<MemberV>::empty()), 1 + fld("type"@).len() as int + enc_key("ice_servers"@).len() as int + 1)));
}
#[verifier::rlimit(100)]
#[verifier::spinoff_prover]
proof fn lemma_rt_ice_servers_parse()
    ensures
        ({
            let t = spec_encode(MsgV::IceServers);
            spec_decode(t) == spec_msg_of_members(t, ice_servers_ms())
        }),
{
    lemma_rt_ice_servers_layout0();
    lemma_rt_ice_servers_layout1();
    lemma_rt_ice_servers_tail0();
    let m = MsgV::IceServers;
    let t = spec_encode(m);
    assert(!is_jws(t[0]));
    assert(spec_ws(t, 0) == 0);
    assert(spec_ws(t, t.len() as int) == t.len());
    assert(ice_servers_ms() == seq![MemberV { key: "type"@, val: PrimV::Str("ice_servers"@) }].add(Seq::<MemberV>::empty()));
    assert(spec_decode(t) == spec_msg_of_members(t, ice_servers_ms()));
}

#[verifier::rlimit(100)]
#[verifier::spinoff_prover]
proof fn lemma_rt_ice_servers()
    ensures
        spec_decode(spec_encode(MsgV::IceServers)) == Some(MsgV::IceServers),
{
    reveal_strlit("answer");
    reveal_strlit("ice");
    reveal_strlit("ice_servers");
    reveal_strlit("join");
    reveal_strlit("join_declined");
    reveal_strlit("keep_alive");
    reveal_strlit("leave");
    reveal_strlit("offer");
    reveal_strlit("server_closed");
    reveal_strlit("start");
    reveal_strlit("start_response");
    reveal_strlit("type");
    lemma_rt_ice_servers_parse();
    let m = MsgV::IceServers;
    let t = spec_encode(m);
    let ms = ice_servers_ms();
    assert("ice_servers"@ != "offer"@) by {
        assert("ice_servers"@.len() != "offer"@.len());
    }
    assert("ice_servers"@ != "answer"@) by {
        assert("ice_servers"@.len() != "answer"@.len());
    }
    assert("ice_servers"@ != "ice"@) by {
        assert("ice_servers"@.len() != "ice"@.len());
    }
    assert("ice_servers"@ != "join"@) by {
        assert("ice_servers"@.len() != "join"@.len());
    }
    assert("ice_servers"@ != "join_declined"@) by {
        assert("ice_servers"@.len() != "join_declined"@.len());
    }
    assert("ice_servers"@ != "start"@) by {
        assert("ice_servers"@.len() != "start"@.len());
    }
    assert("ice_servers"@ != "start_response"@) by {
        assert("ice_servers"@.len() != "start_response"@.len());
    }
    assert("ice_servers"@ != "leave"@) by {
        assert("ice_servers"@.len() != "leave"@.len());
    }
    assert("ice_servers"@ != "server_closed"@) by {
        assert("ice_servers"@.len() != "server_closed"@.len());
    }
    assert("ice_servers"@ != "keep_alive"@) by {
        assert("ice_servers"@.len() != "keep_alive"@.len());
    }
    assert(field_of(ms, "type"@) == Some(PrimV::Str("ice_servers"@))) by {
        assert(ms[0] == MemberV { key: "type"@, val: PrimV::Str("ice_servers"@) });
    }
    assert(req_str(ms, "type"@) == Some("ice_servers"@));
    assert(spec_msg_of_members(t, ms) == Some(m));
}

/// The member list of an encoded `get_room_list` frame.
pub open spec fn get_room_list_ms(os: Option<Seq<char>>, name: Option<Seq<char>>, version: Option<Seq<char>>, server: Option<Seq<char>>, sort: Option<Seq<char>>, control: Option<bool>, page: Option<usize>, per_page: Option<usize>) -> Seq<MemberV> {
    seq![MemberV { key: "type"@, val: PrimV::Str("get_room_list"@) }].add(seq![MemberV { key: "os"@, val: opt_str_prim(os) }].add(seq![MemberV { key: "name"@, val: opt_str_prim(name) }].add(seq![MemberV { key: "version"@, val: opt_str_prim(version) }].add(seq![MemberV { key: "server"@, val: opt_str_prim(server) }].add(seq![MemberV { key: "sort"@, val: opt_str_prim(sort) }].add(seq![MemberV { key: "control"@, val: opt_bool_prim(control) }].add(seq![MemberV { key: "page"@, val: opt_usize_prim(page) }].add(seq![MemberV { key: "per_page"@, val: opt_usize_prim(per_page) }].add(Seq::<MemberV>::empty())))))))))
}

#[verifier::rlimit(100)]
#[verifier::spinoff_prover]
proof fn lemma_rt_get_room_list_layout0(os: Option<Seq<char>>, name: Option<Seq<char>>, version: Option<Seq<char>>, server: Option<Seq<char>>, sort: Option<Seq<char>>, control: Option<bool>, page: Option<usize>, per_page: Option<usize>)
    ensures
        ({
            let t = spec_encode(MsgV::GetRoomList { os, name, version, server, sort, control, page, per_page });
            &&& t.len() as int == 1 + fld("type"@).len() as int + enc_key("get_room_list"@).len() as int + 1 + fld("os"@).len() as int + enc_opt_str(os).len() as int + 1 + fld("name"@).len() as int + enc_opt_str(name).len() as int + 1 + fld("version"@).len() as int + enc_opt_str(version).len() as int + 1 + fld("server"@).len() as int + enc_opt_str(server).len() as int + 1 + fld("sort"@).len() as int + enc_opt_str(sort).len() as int + 1 + fld("control"@).len() as int + enc_opt_bool(control).len() as int + 1 + fld("page"@).len() as int + enc_opt_usize(page).len() as int + 1 + fld("per_page"@).len() as int + enc_opt_usize(per_page).len() as int + 1
            &&& t[0] == '{'
            &&& t.subrange(1, 1 + fld("type"@).len() as int) == fld("type"@)
            &&& t.subrange(1 + fld("type"@).len() as int, 1 + fld("type"@).len() as int + enc_key("get_room_list"@).len() as int) == enc_key("get_room_list"@)
        }),
{
    let m = MsgV::GetRoomList { os, name, version, server, sort, control, page, per_page };
    let t = spec_encode(m);
    assert(t == seq!['{'].add(fld("type"@)).add(enc_key("get_room_list"@)).add(seq![',']).add(fld("os"@)).add(enc_opt_str(os)).add(seq![',']).add(fld("name"@)).add(enc_opt_str(name)).add(seq![',']).add(fld("version"@)).add(enc_opt_str(version)).add(seq![',']).add(fld("server"@)).add(enc_opt_str(server)).add(seq![',']).add(fld("sort"@)).add(enc_opt_str(sort)).add(seq![',']).add(fld("control"@)).add(enc_opt_bool(control)).add(seq![',']).add(fld("page"@)).add(enc_opt_usize(page)).add(seq![',']).add(fld("per_page"@)).add(enc_opt_usize(per_page)).add(seq!['}']));
    assert(t.len() as int == 1 + fld("type"@).len() as int + enc_key("get_room_list"@).len() as int + 1 + fld("os"@).len() as int + enc_opt_str(os).len() as int + 1 + fld("name"@).len() as int + enc_opt_str(name).len() as int + 1 + fld("version"@).len() as int + enc_opt_str(version).len() as int + 1 + fld("server"@).len() as int + enc_opt_str(server).len() as int + 1 + fld("sort"@).len() as int + enc_opt_str(sort).len() as int + 1 + fld("control"@).len() as int + enc_opt_bool(control).len() as int + 1 + fld("page"@).len() as int + enc_opt_usize(page).len() as int + 1 + fld("per_page"@).len() as int + enc_opt_usize(per_page).len() as int + 1);
    assert(t[0] == '{');
    assert(t.subrange(1, 1 + fld("type"@).len() as int) =~= fld("type"@));
    assert(t.subrange(1 + fld("type"@).len() as int, 1 + fld("type"@).len() as int + enc_key("get_room_list"@).len() as int) =~= enc_key("get_room_list"@));
}

#[verifier::rlimit(100)]
#[verifier::spinoff_prover]
proof fn lemma_rt_get_room_list_layout1(os: Option<Seq<char>>, name: Option<Seq<char>>, version: Option<Seq<char>>, server: Option<Seq<char>>, sort: Option<Seq<char>>, control: Option<bool>, page: Option<usize>, per_page: Option<usize>)
    ensures
        ({
            let t = spec_encode(MsgV::GetRoomList { os, name, version, server, sort, control, page, per_page });
            &&& t[1 + fld("type"@).len() as int + enc_key("get_room_list"@).len() as int] == ','
            &&& t.subrange(1 + fld("type"@).len() as int + enc_key("get_room_list"@).len() as int + 1, 1 + fld("type"@).len() as int + enc_key("get_room_list"@).len() as int + 1 + fld("os"@).len() as int) == fld("os"@)
            &&& t.subrange(1 + fld("type"@).len() as int + enc_key("get_room_list"@).len() as int + 1 + fld("os"@).len() as int, 1 + fld("type"@).len() as int + enc_key("get_room_list"@).len() as int + 1 + fld("os"@).len() as int + enc_opt_str(os).len() as int) == enc_opt_str(os)
            &&& t[1 + fld("type"@).len() as int + enc_key("get_room_list"@).len() as int + 1 + fld("os"@).len() as int + enc_opt_str(os).len() as int] == ','
        }),
{
    let m = MsgV::GetRoomList { os, name, version, server, sort, control, page, per_page };
    let t = spec_encode(m);
    assert(t == seq!['{'].add(fld("type"@)).add(enc_key("get_room_list"@)).add(seq![',']).add(fld("os"@)).add(enc_opt_str(os)).add(seq![',']).add(fld("name"@)).add(enc_opt_str(name)).add(seq![',']).add(fld("version"@)).add(enc_opt_str(version)).add(seq![',']).add(fld("server"@)).add(enc_opt_str(server)).add(seq![',']).add(fld("sort"@)).add(enc_opt_str(sort)).add(seq![',']).add(fld("control"@)).add(enc_opt_bool(control)).add(seq![',']).add(fld("page"@)).add(enc_opt_usize(page)).add(seq![',']).add(fld("per_page"@)).add(enc_opt_usize(per_page)).add(seq!['}']));
    assert(t[1 + fld("type"@).len() as int + enc_key("get_room_list"@).len() as int] == ',');
    assert(t.subrange(1 + fld("type"@).len() as int + enc_key("get_room_list"@).len() as int + 1, 1 + fld("type"@).len() as int + enc_key("get_room_list"@).len() as int + 1 + fld("os"@).len() as int) =~= fld("os"@));
    assert(t.subrange(1 + fld("type"@).len() as int + enc_key("get_room_list"@).len() as int + 1 + fld("os"@).len() as int, 1 + fld("type"@).len() as int + enc_key("get_room_list"@).len() as int + 1 + fld("os"@).len() as int + enc_opt_str(os).len() as int) =~= enc_opt_str(os));
    assert(t[1 + fld("type"@).len() as int + enc_key("get_room_list"@).len() as int + 1 + fld("os"@).len() as int + enc_opt_str(os).len() as int] == ',');
}

#[verifier::rlimit(100)]
#[verifier::spinoff_prover]
proof fn lemma_rt_get_room_list_layout2(os: Option<Seq<char>>, name: Option<Seq<char>>, version: Option<Seq<char>>, server: Option<Seq<char>>, sort: Option<Seq<char>>, control: Option<bool>, page: Option<usize>, per_page: Option<usize>)
    ensures
        ({
            let t = spec_encode(MsgV::GetRoomList { os, name, version, server, sort, control, page, per_page });
            &&& t.subrange(1 + fld("type"@).len() as int + enc_key("get_room_list"@).len() as int + 1 + fld("os"@).len() as int + enc_opt_str(os).len() as int + 1, 1 + fld("type"@).len() as int + enc_key("get_room_list"@).len() as int + 1 + fld("os"@).len() as int + enc_opt_str(os).len() as int + 1 + fld("name"@).len() as int) == fld("name"@)
            &&& t.subrange(1 + fld("type"@).len() as int + enc_key("get_room_list"@).len() as int + 1 + fld("os"@).len() as int + enc_opt_str(os).len() as int + 1 + fld("name"@).len() as int, 1 + fld("type"@).len() as int + enc_key("get_room_list"@).len() as int + 1 + fld("os"@).len() as int + enc_opt_str(os).len() as int + 1 + fld("name"@).len() as int + enc_opt_str(name).len() as int) == enc_opt_str(name)
            &&& t[1 + fld("type"@).len() as int + enc_key("get_room_list"@).len() as int + 1 + fld("os"@).len() as int + enc_opt_str(os).len() as int + 1 + fld("name"@).len() as int + enc_opt_str(name).len() as int] == ','
            &&& t.subrange(1 + fld("type"@).len() as int + enc_key("get_room_list"@).len() as int + 1 + fld("os"@).len() as int + enc_opt_str(os).len() as int + 1 + fld("name"@).len() as int + enc_opt_str(name).len() as int + 1, 1 + fld("type"@).len() as int + enc_key("get_room_list"@).len() as int + 1 + fld("os"@).len() as int + enc_opt_str(os).len() as int + 1 + fld("name"@).len() as int + enc_opt_str(name).len() as int + 1 + fld("version"@).len() as int) == fld("version"@)
        }),
{
    let m = MsgV::GetRoomList { os, name, version, server, sort, control, page, per_page };
    let t = spec_encode(m);
    assert(t == seq!['{'].add(fld("type"@)).add(enc_key("get_room_list"@)).add(seq![',']).add(fld("os"@)).add(enc_opt_str(os)).add(seq![',']).add(fld("name"@)).add(enc_opt_str(name)).add(seq![',']).add(fld("version"@)).add(enc_opt_str(version)).add(seq![',']).add(fld("server"@)).add(enc_opt_str(server)).add(seq![',']).add(fld("sort"@)).add(enc_opt_str(sort)).add(seq![',']).add(fld("control"@)).add(enc_opt_bool(control)).add(seq![',']).add(fld("page"@)).add(enc_opt_usize(page)).add(seq![',']).add(fld("per_page"@)).add(enc_opt_usize(per_page)).add(seq!['}']));
    assert(t.subrange(1 + fld("type"@).len() as int + enc_key("get_room_list"@).len() as int + 1 + fld("os"@).len() as int + enc_opt_str(os).len() as int + 1, 1 + fld("type"@).len() as int + enc_key("get_room_list"@).len() as int + 1 + fld("os"@).len() as int + enc_opt_str(os).len() as int + 1 + fld("name"@).len() as int) =~= fld("name"@));
    assert(t.subrange(1 + fld("type"@).len() as int + enc_key("get_room_list"@).len() as int + 1 + fld("os"@).len() as int + enc_opt_str(os).len() as int + 1 + fld("name"@).len() as int, 1 + fld("type"@).len() as int + enc_key("get_room_list"@).len() as int + 1 + fld("os"@).len() as int + enc_opt_str(os).len() as int + 1 + fld("name"@).len() as int + enc_opt_str(name).len() as int) =~= enc_opt_str(name));
    assert(t[1 + fld("type"@).len() as int + enc_key("get_room_list"@).len() as int + 1 + fld("os"@).len() as int + enc_opt_str(os).len() as int + 1 + fld("name"@).len() as int + enc_opt_str(name).len() as int] == ',');
    assert(t.subrange(1 + fld("type"@).len() as int + enc_key("get_room_list"@).len() as int + 1 + fld("os"@).len() as int + enc_opt_str(os).len() as int + 1 + fld("name"@).len() as int + enc_opt_str(name).len() as int + 1, 1 + fld("type"@).len() as int + enc_key("get_room_list"@).len() as int + 1 + fld("os"@).len() as int + enc_opt_str(os).len() as int + 1 + fld("name"@).len() as int + enc_opt_str(name).len() as int + 1 + fld("version"@).len() as int) =~= fld("version"@));
}

#[verifier::rlimit(100)]
#[verifier::spinoff_prover]
proof fn lemma_rt_get_room_list_layout3(os: Option<Seq<char>>, name: Option<Seq<char>>, version: Option<Seq<char>>, server: Option<Seq<char>>, sort: Option<Seq<char>>, control: Option<bool>, page: Option<usize>, per_page: Option<usize>)
    ensures
        ({
            let t = spec_encode(MsgV::GetRoomList { os, name, version, server, sort, control, page, per_page });
            &&& t.subrange(1 + fld("type"@).len() as int + enc_key("get_room_list"@).len() as int + 1 + fld("os"@).len() as int + enc_opt_str(os).len() as int + 1 + fld("name"@).len() as int + enc_opt_str(name).len() as int + 1 + fld("version"@).len() as int, 1 + fld("type"@).len() as int + enc_key("get_room_list"@).len() as int + 1 + fld("os"@).len() as int + enc_opt_str(os).len() as int + 1 + fld("name"@).len() as int + enc_opt_str(name).len() as int + 1 + fld("version"@).len() as int + enc_opt_str(version).len() as int) == enc_opt_str(version)
            &&& t[1 + fld("type"@).len() as int + enc_key("get_room_list"@).len() as int + 1 + fld("os"@).len() as int + enc_opt_str(os).len() as int + 1 + fld("name"@).len() as int + enc_opt_str(name).len() as int + 1 + fld("version"@).len() as int + enc_opt_str(version).len() as int] == ','
            &&& t.subrange(1 + fld("type"@).len() as int + enc_key("get_room_list"@).len() as int + 1 + fld("os"@).len() as int + enc_opt_str(os).len() as int + 1 + fld("name"@).len() as int + enc_opt_str(name).len() as int + 1 + fld("version"@).len() as int + enc_opt_str(version).len() as int + 1, 1 + fld("type"@).len() as int + enc_key("get_room_list"@).len() as int + 1 + fld("os"@).len() as int + enc_opt_str(os).len() as int + 1 + fld("name"@).len() as int + enc_opt_str(name).len() as int + 1 + fld("version"@).len() as int + enc_opt_str(version).len() as int + 1 + fld("server"@).len() as int) == fld("server"@)
            &&& t.subrange(1 + fld("type"@).len() as int + enc_key("get_room_list"@).len() as int + 1 + fld("os"@).len() as int + enc_opt_str(os).len() as int + 1 + fld("name"@).len() as int + enc_opt_str(name).len() as int + 1 + fld("version"@).len() as int + enc_opt_str(version).len() as int + 1 + fld("server"@).len() as int, 1 + fld("type"@).len() as int + enc_key("get_room_list"@).len() as int + 1 + fld("os"@).len() as int + enc_opt_str(os).len() as int + 1 + fld("name"@).len() as int + enc_opt_str(name).len() as int + 1 + fld("version"@).len() as int + enc_opt_str(version).len() as int + 1 + fld("server"@).len() as int + enc_opt_str(server).len() as int) == enc_opt_str(server)
        }),
{
    let m = MsgV::GetRoomList { os, name, version, server, sort, control, page, per_page };
    let t = spec_encode(m);
    assert(t == seq!['{'].add(fld("type"@)).add(enc_key("get_room_list"@)).add(seq![',']).add(fld("os"@)).add(enc_opt_str(os)).add(seq![',']).add(fld("name"@)).add(enc_opt_str(name)).add(seq![',']).add(fld("version"@)).add(enc_opt_str(version)).add(seq![',']).add(fld("server"@)).add(enc_opt_str(server)).add(seq![',']).add(fld("sort"@)).add(enc_opt_str(sort)).add(seq![',']).add(fld("control"@)).add(enc_opt_bool(control)).add(seq![',']).add(fld("page"@)).add(enc_opt_usize(page)).add(seq![',']).add(fld("per_page"@)).add(enc_opt_usize(per_page)).add(seq!['}']));
    assert(t.subrange(1 + fld("type"@).len() as int + enc_key("get_room_list"@).len() as int + 1 + fld("os"@).len() as int + enc_opt_str(os).len() as int + 1 + fld("name"@).len() as int + enc_opt_str(name).len() as int + 1 + fld("version"@).len() as int, 1 + fld("type"@).len() as int + enc_key("get_room_list"@).len() as int + 1 + fld("os"@).len() as int + enc_opt_str(os).len() as int + 1 + fld("name"@).len() as int + enc_opt_str(name).len() as int + 1 + fld("version"@).len() as int + enc_opt_str(version).len() as int) =~= enc_opt_str(version));
    assert(t[1 + fld("type"@).len() as int + enc_key("get_room_list"@).len() as int + 1 + fld("os"@).len() as int + enc_opt_str(os).len() as int + 1 + fld("name"@).len() as int + enc_opt_str(name).len() as int + 1 + fld("version"@).len() as int + enc_opt_str(version).len() as int] == ',');
    assert(t.subrange(1 + fld("type"@).len() as int + enc_key("get_room_list"@).len() as int + 1 + fld("os"@).len() as int + enc_opt_str(os).len() as int + 1 + fld("name"@).len() as int + enc_opt_str(name).len() as int + 1 + fld("version"@).len() as int + enc_opt_str(version).len() as int + 1, 1 + fld("type"@).len() as int + enc_key("get_room_list"@).len() as int + 1 + fld("os"@).len() as int + enc_opt_str(os).len() as int + 1 + fld("name"@).len() as int + enc_opt_str(name).len() as int + 1 + fld("version"@).len() as int + enc_opt_str(version).len() as int + 1 + fld("server"@).len() as int) =~= fld("server"@));
    assert(t.subrange(1 + fld("type"@).len() as int + enc_key("get_room_list"@).len() as int + 1 + fld("os"@).len() as int + enc_opt_str(os).len() as int + 1 + fld("name"@).len() as int + enc_opt_str(name).len() as int + 1 + fld("version"@).len() as int + enc_opt_str(version).len() as int + 1 + fld("server"@).len() as int, 1 + fld("type"@).len() as int + enc_key("get_room_list"@).len() as int + 1 + fld("os"@).len() as int + enc_opt_str(os).len() as int + 1 + fld("name"@).len() as int + enc_opt_str(name).len() as int + 1 + fld("version"@).len() as int + enc_opt_str(version).len() as int + 1 + fld("server"@).len() as int + enc_opt_str(server).len() as int) =~= enc_opt_str(server));
}

#[verifier::rlimit(100)]
#[verifier::spinoff_prover]
proof fn lemma_rt_get_room_list_layout4(os: Option<Seq<char>>, name: Option<Seq<char>>, version: Option<Seq<char>>, server: Option<Seq<char>>, sort: Option<Seq<char>>, control: Option<bool>, page: Option<usize>, per_page: Option<usize>)
    ensures
        ({
            let t = spec_encode(MsgV::GetRoomList { os, name, version, server, sort, control, page, per_page });
            &&& t[1 + fld("type"@).len() as int + enc_key("get_room_list"@).len() as int + 1 + fld("os"@).len() as int + enc_opt_str(os).len() as int + 1 + fld("name"@).len() as int + enc_opt_str(name).len() as int + 1 + fld("version"@).len() as int + enc_opt_str(version).len() as int + 1 + fld("server"@).len() as int + enc_opt_str(server).len() as int] == ','
            &&& t.subrange(1 + fld("type"@).len() as int + enc_key("get_room_list"@).len() as int + 1 + fld("os"@).len() as int + enc_opt_str(os).len() as int + 1 + fld("name"@).len() as int + enc_opt_str(name).len() as int + 1 + fld("version"@).len() as int + enc_opt_str(version).len() as int + 1 + fld("server"@).len() as int + enc_opt_str(server).len() as int + 1, 1 + fld("type"@).len() as int + enc_key("get_room_list"@).len() as int + 1 + fld("os"@).len() as int + enc_opt_str(os).len() as int + 1 + fld("name"@).len() as int + enc_opt_str(name).len() as int + 1 + fld("version"@).len() as int + enc_opt_str(version).len() as int + 1 + fld("server"@).len() as int + enc_opt_str(server).len() as int + 1 + fld("sort"@).len() as int) == fld("sort"@)
            &&& t.subrange(1 + fld("type"@).len() as int + enc_key("get_room_list"@).len() as int + 1 + fld("os"@).len() as int + enc_opt_str(os).len() as int + 1 + fld("name"@).len() as int + enc_opt_str(name).len() as int + 1 + fld("version"@).len() as int + enc_opt_str(version).len() as int + 1 + fld("server"@).len() as int + enc_opt_str(server).len() as int + 1 + fld("sort"@).len() as int, 1 + fld("type"@).len() as int + enc_key("get_room_list"@).len() as int + 1 + fld("os"@).len() as int + enc_opt_str(os).len() as int + 1 + fld("name"@).len() as int + enc_opt_str(name).len() as int + 1 + fld("version"@).len() as int + enc_opt_str(version).len() as int + 1 + fld("server"@).len() as int + enc_opt_str(server).len() as int + 1 + fld("sort"@).len() as int + enc_opt_str(sort).len() as int) == enc_opt_str(sort)
            &&& t[1 + fld("type"@).len() as int + enc_key("get_room_list"@).len() as int + 1 + fld("os"@).len() as int + enc_opt_str(os).len() as int + 1 + fld("name"@).len() as int + enc_opt_str(name).len() as int + 1 + fld("version"@).len() as int + enc_opt_str(version).len() as int + 1 + fld("server"@).len() as int + enc_opt_str(server).len() as int + 1 + fld("sort"@).len() as int + enc_opt_str(sort).len() as int] == ','
        }),
{
    let m = MsgV::GetRoomList { os, name, version, server, sort, control, page, per_page };
    let t = spec_encode(m);
    assert(t == seq!['{'].add(fld("type"@)).add(enc_key("get_room_list"@)).add(seq![',']).add(fld("os"@)).add(enc_opt_str(os)).add(seq![',']).add(fld("name"@)).add(enc_opt_str(name)).add(seq![',']).add(fld("version"@)).add(enc_opt_str(version)).add(seq![',']).add(fld("server"@)).add(enc_opt_str(server)).add(seq![',']).add(fld("sort"@)).add(enc_opt_str(sort)).add(seq![',']).add(fld("control"@)).add(enc_opt_bool(control)).add(seq![',']).add(fld("page"@)).add(enc_opt_usize(page)).add(seq![',']).add(fld("per_page"@)).add(enc_opt_usize(per_page)).add(seq!['}']));
    assert(t[1 + fld("type"@).len() as int + enc_key("get_room_list"@).len() as int + 1 + fld("os"@).len() as int + enc_opt_str(os).len() as int + 1 + fld("name"@).len() as int + enc_opt_str(name).len() as int + 1 + fld("version"@).len() as int + enc_opt_str(version).len() as int + 1 + fld("server"@).len() as int + enc_opt_str(server).len() as int] == ',');
    assert(t.subrange(1 + fld("type"@).len() as int + enc_key("get_room_list"@).len() as int + 1 + fld("os"@).len() as int + enc_opt_str(os).len() as int + 1 + fld("name"@).len() as int + enc_opt_str(name).len() as int + 1 + fld("version"@).len() as int + enc_opt_str(version).len() as int + 1 + fld("server"@).len() as int + enc_opt_str(server).len() as int + 1, 1 + fld("type"@).len() as int + enc_key("get_room_list"@).len() as int + 1 + fld("os"@).len() as int + enc_opt_str(os).len() as int + 1 + fld("name"@).len() as int + enc_opt_str(name).len() as int + 1 + fld("version"@).len() as int + enc_opt_str(version).len() as int + 1 + fld("server"@).len() as int + enc_opt_str(server).len() as int + 1 + fld("sort"@).len() as int) =~= fld("sort"@));
    assert(t.subrange(1 + fld("type"@).len() as int + enc_key("get_room_list"@).len() as int + 1 + fld("os"@).len() as int + enc_opt_str(os).len() as int + 1 + fld("name"@).len() as int + enc_opt_str(name).len() as int + 1 + fld("version"@).len() as int + enc_opt_str(version).len() as int + 1 + fld("server"@).len() as int + enc_opt_str(server).len() as int + 1 + fld("sort"@).len() as int, 1 + fld("type"@).len() as int + enc_key("get_room_list"@).len() as int + 1 + fld("os"@).len() as int + enc_opt_str(os).len() as int + 1 + fld("name"@).len() as int + enc_opt_str(name).len() as int + 1 + fld("version"@).len() as int + enc_opt_str(version).len() as int + 1 + fld("server"@).len() as int + enc_opt_str(server).len() as int + 1 + fld("sort"@).len() as int + enc_opt_str(sort).len() as int) =~= enc_opt_str(sort));
    assert(t[1 + fld("type"@).len() as int + enc_key("get_room_list"@).len() as int + 1 + fld("os"@).len() as int + enc_opt_str(os).len() as int + 1 + fld("name"@).len() as int + enc_opt_str(name).len() as int + 1 + fld("version"@).len() as int + enc_opt_str(version).len() as int + 1 + fld("server"@).len() as int + enc_opt_str(server).len() as int + 1 + fld("sort"@).len() as int + enc_opt_str(sort).len() as int] == ',');
}

#[verifier::rlimit(100)]
#[verifier::spinoff_prover]
proof fn lemma_rt_get_room_list_layout5(os: Option<Seq<char>>, name: Option<Seq<char>>, version: Option<Seq<char>>, server: Option<Seq<char>>, sort: Option<Seq<char>>, control: Option<bool>, page: Option<usize>, per_page: Option<usize>)
    ensures
        ({
            let t = spec_encode(MsgV::GetRoomList { os, name, version, server, sort, control, page, per_page });
            &&& t.subrange(1 + fld("type"@).len() as int + enc_key("get_room_list"@).len() as int + 1 + fld("os"@).len() as int + enc_opt_str(os).len() as int + 1 + fld("name"@).len() as int + enc_opt_str(name).len() as int + 1 + fld("version"@).len() as int + enc_opt_str(version).len() as int + 1 + fld("server"@).len() as int + enc_opt_str(server).len() as int + 1 + fld("sort"@).len() as int + enc_opt_str(sort).len() as int + 1, 1 + fld("type"@).len() as int + enc_key("get_room_list"@).len() as int + 1 + fld("os"@).len() as int + enc_opt_str(os).len() as int + 1 + fld("name"@).len() as int + enc_opt_str(name).len() as int + 1 + fld("version"@).len() as int + enc_opt_str(version).len() as int + 1 + fld("server"@).len() as int + enc_opt_str(server).len() as int + 1 + fld("sort"@).len() as int + enc_opt_str(sort).len() as int + 1 + fld("control"@).len() as int) == fld("control"@)
            &&& t.subrange(1 + fld("type"@).len() as int + enc_key("get_room_list"@).len() as int + 1 + fld("os"@).len() as int + enc_opt_str(os).len() as int + 1 + fld("name"@).len() as int + enc_opt_str(name).len() as int + 1 + fld("version"@).len() as int + enc_opt_str(version).len() as int + 1 + fld("server"@).len() as int + enc_opt_str(server).len() as int + 1 + fld("sort"@).len() as int + enc_opt_str(sort).len() as int + 1 + fld("control"@).len() as int, 1 + fld("type"@).len() as int + enc_key("get_room_list"@).len() as int + 1 + fld("os"@).len() as int + enc_opt_str(os).len() as int + 1 + fld("name"@).len() as int + enc_opt_str(name).len() as int + 1 + fld("version"@).len() as int + enc_opt_str(version).len() as int + 1 + fld("server"@).len() as int + enc_opt_str(server).len() as int + 1 + fld("sort"@).len() as int + enc_opt_str(sort).len() as int + 1 + fld("control"@).len() as int + enc_opt_bool(control).len() as int) == enc_opt_bool(control)
            &&& t[1 + fld("type"@).len() as int + enc_key("get_room_list"@).len() as int + 1 + fld("os"@).len() as int + enc_opt_str(os).len() as int + 1 + fld("name"@).len() as int + enc_opt_str(name).len() as int + 1 + fld("version"@).len() as int + enc_opt_str(version).len() as int + 1 + fld("server"@).len() as int + enc_opt_str(server).len() as int + 1 + fld("sort"@).len() as int + enc_opt_str(sort).len() as int + 1 + fld("control"@).len() as int + enc_opt_bool(control).len() as int] == ','
            &&& t.subrange(1 + fld("type"@).len() as int + enc_key("get_room_list"@).len() as int + 1 + fld("os"@).len() as int + enc_opt_str(os).len() as int + 1 + fld("name"@).len() as int + enc_opt_str(name).len() as int + 1 + fld("version"@).len() as int + enc_opt_str(version).len() as int + 1 + fld("server"@).len() as int + enc_opt_str(server).len() as int + 1 + fld("sort"@).len() as int + enc_opt_str(sort).len() as int + 1 + fld("control"@).len() as int + enc_opt_bool(control).len() as int + 1, 1 + fld("type"@).len() as int + enc_key("get_room_list"@).len() as int + 1 + fld("os"@).len() as int + enc_opt_str(os).len() as int + 1 + fld("name"@).len() as int + enc_opt_str(name).len() as int + 1 + fld("version"@).len() as int + enc_opt_str(version).len() as int + 1 + fld("server"@).len() as int + enc_opt_str(server).len() as int + 1 + fld("sort"@).len() as int + enc_opt_str(sort).len() as int + 1 + fld("control"@).len() as int + enc_opt_bool(control).len() as int + 1 + fld("page"@).len() as int) == fld("page"@)
        }),
{
    let m = MsgV::GetRoomList { os, name, version, server, sort, control, page, per_page };
    let t = spec_encode(m);
    assert(t == seq!['{'].add(fld("type"@)).add(enc_key("get_room_list"@)).add(seq![',']).add(fld("os"@)).add(enc_opt_str(os)).add(seq![',']).add(fld("name"@)).add(enc_opt_str(name)).add(seq![',']).add(fld("version"@)).add(enc_opt_str(version)).add(seq![',']).add(fld("server"@)).add(enc_opt_str(server)).add(seq![',']).add(fld("sort"@)).add(enc_opt_str(sort)).add(seq![',']).add(fld("control"@)).add(enc_opt_bool(control)).add(seq![',']).add(fld("page"@)).add(enc_opt_usize(page)).add(seq![',']).add(fld("per_page"@)).add(enc_opt_usize(per_page)).add(seq!['}']));
    assert(t.subrange(1 + fld("type"@).len() as int + enc_key("get_room_list"@).len() as int + 1 + fld("os"@).len() as int + enc_opt_str(os).len() as int + 1 + fld("name"@).len() as int + enc_opt_str(name).len() as int + 1 + fld("version"@).len() as int + enc_opt_str(version).len() as int + 1 + fld("server"@).len() as int + enc_opt_str(server).len() as int + 1 + fld("sort"@).len() as int + enc_opt_str(sort).len() as int + 1, 1 + fld("type"@).len() as int + enc_key("get_room_list"@).len() as int + 1 + fld("os"@).len() as int + enc_opt_str(os).len() as int + 1 + fld("name"@).len() as int + enc_opt_str(name).len() as int + 1 + fld("version"@).len() as int + enc_opt_str(version).len() as int + 1 + fld("server"@).len() as int + enc_opt_str(server).len() as int + 1 + fld("sort"@).len() as int + enc_opt_str(sort).len() as int + 1 + fld("control"@).len() as int) =~= fld("control"@));
    assert(t.subrange(1 + fld("type"@).len() as int + enc_key("get_room_list"@).len() as int + 1 + fld("os"@).len() as int + enc_opt_str(os).len() as int + 1 + fld("name"@).len() as int + enc_opt_str(name).len() as int + 1 + fld("version"@).len() as int + enc_opt_str(version).len() as int + 1 + fld("server"@).len() as int + enc_opt_str(server).len() as int + 1 + fld("sort"@).len() as int + enc_opt_str(sort).len() as int + 1 + fld("control"@).len() as int, 1 + fld("type"@).len() as int + enc_key("get_room_list"@).len() as int + 1 + fld("os"@).len() as int + enc_opt_str(os).len() as int + 1 + fld("name"@).len() as int + enc_opt_str(name).len() as int + 1 + fld("version"@).len() as int + enc_opt_str(version).len() as int + 1 + fld("server"@).len() as int + enc_opt_str(server).len() as int + 1 + fld("sort"@).len() as int + enc_opt_str(sort).len() as int + 1 + fld("control"@).len() as int + enc_opt_bool(control).len() as int) =~= enc_opt_bool(control));
    assert(t[1 + fld("type"@).len() as int + enc_key("get_room_list"@).len() as int + 1 + fld("os"@).len() as int + enc_opt_str(os).len() as int + 1 + fld("name"@).len() as int + enc_opt_str(name).len() as int + 1 + fld("version"@).len() as int + enc_opt_str(version).len() as int + 1 + fld("server"@).len() as int + enc_opt_str(server).len() as int + 1 + fld("sort"@).len() as int + enc_opt_str(sort).len() as int + 1 + fld("control"@).len() as int + enc_opt_bool(control).len() as int] == ',');
    assert(t.subrange(1 + fld("type"@).len() as int + enc_key("get_room_list"@).len() as int + 1 + fld("os"@).len() as int + enc_opt_str(os).len() as int + 1 + fld("name"@).len() as int + enc_opt_str(name).len() as int + 1 + fld("version"@).len() as int + enc_opt_str(version).len() as int + 1 + fld("server"@).len() as int + enc_opt_str(server).len() as int + 1 + fld("sort"@).len() as int + enc_opt_str(sort).len() as int + 1 + fld("control"@).len() as int + enc_opt_bool(control).len() as int + 1, 1 + fld("type"@).len() as int + enc_key("get_room_list"@).len() as int + 1 + fld("os"@).len() as int + enc_opt_str(os).len() as int + 1 + fld("name"@).len() as int + enc_opt_str(name).len() as int + 1 + fld("version"@).len() as int + enc_opt_str(version).len() as int + 1 + fld("server"@).len() as int + enc_opt_str(server).len() as int + 1 + fld("sort"@).len() as int + enc_opt_str(sort).len() as int + 1 + fld("control"@).len() as int + enc_opt_bool(control).len() as int + 1 + fld("page"@).len() as int) =~= fld("page"@));
}

#[verifier::rlimit(100)]
#[verifier::spinoff_prover]
proof fn lemma_rt_get_room_list_layout6(os: Option<Seq<char>>, name: Option<Seq<char>>, version: Option<Seq<char>>, server: Option<Seq<char>>, sort: Option<Seq<char>>, control: Option<bool>, page: Option<usize>, per_page: Option<usize>)
    ensures
        ({
            let t = spec_encode(MsgV::GetRoomList { os, name, version, server, sort, control, page, per_page });
            &&& t.subrange(1 + fld("type"@).len() as int + enc_key("get_room_list"@).len() as int + 1 + fld("os"@).len() as int + enc_opt_str(os).len() as int + 1 + fld("name"@).len() as int + enc_opt_str(name).len() as int + 1 + fld("version"@).len() as int + enc_opt_str(version).len() as int + 1 + fld("server"@).len() as int + enc_opt_str(server).len() as int + 1 + fld("sort"@).len() as int + enc_opt_str(sort).len() as int + 1 + fld("control"@).len() as int + enc_opt_bool(control).len() as int + 1 + fld("page"@).len() as int, 1 + fld("type"@).len() as int + enc_key("get_room_list"@).len() as int + 1 + fld("os"@).len() as int + enc_opt_str(os).len() as int + 1 + fld("name"@).len() as int + enc_opt_str(name).len() as int + 1 + fld("version"@).len() as int + enc_opt_str(version).len() as int + 1 + fld("server"@).len() as int + enc_opt_str(server).len() as int + 1 + fld("sort"@).len() as int + enc_opt_str(sort).len() as int + 1 + fld("control"@).len() as int + enc_opt_bool(control).len() as int + 1 + fld("page"@).len() as int + enc_opt_usize(page).len() as int) == enc_opt_usize(page)
            &&& t[1 + fld("type"@).len() as int + enc_key("get_room_list"@).len() as int + 1 + fld("os"@).len() as int + enc_opt_str(os).len() as int + 1 + fld("name"@).len() as int + enc_opt_str(name).len() as int + 1 + fld("version"@).len() as int + enc_opt_str(version).len() as int + 1 + fld("server"@).len() as int + enc_opt_str(server).len() as int + 1 + fld("sort"@).len() as int + enc_opt_str(sort).len() as int + 1 + fld("control"@).len() as int + enc_opt_bool(control).len() as int + 1 + fld("page"@).len() as int + enc_opt_usize(page).len() as int] == ','
            &&& t.subrange(1 + fld("type"@).len() as int + enc_key("get_room_list"@).len() as int + 1 + fld("os"@).len() as int + enc_opt_str(os).len() as int + 1 + fld("name"@).len() as int + enc_opt_str(name).len() as int + 1 + fld("version"@).len() as int + enc_opt_str(version).len() as int + 1 + fld("server"@).len() as int + enc_opt_str(server).len() as int + 1 + fld("sort"@).len() as int + enc_opt_str(sort).len() as int + 1 + fld("control"@).len() as int + enc_opt_bool(control).len() as int + 1 + fld("page"@).len() as int + enc_opt_usize(page).len() as int + 1, 1 + fld("type"@).len() as int + enc_key("get_room_list"@).len() as int + 1 + fld("os"@).len() as int + enc_opt_str(os).len() as int + 1 + fld("name"@).len() as int + enc_opt_str(name).len() as int + 1 + fld("version"@).len() as int + enc_opt_str(version).len() as int + 1 + fld("server"@).len() as int + enc_opt_str(server).len() as int + 1 + fld("sort"@).len() as int + enc_opt_str(sort).len() as int + 1 + fld("control"@).len() as int + enc_opt_bool(control).len() as int + 1 + fld("page"@).len() as int + enc_opt_usize(page).len() as int + 1 + fld("per_page"@).len() as int) == fld("per_page"@)
            &&& t.subrange(1 + fld("type"@).len() as int + enc_key("get_room_list"@).len() as int + 1 + fld("os"@).len() as int + enc_opt_str(os).len() as int + 1 + fld("name"@).len() as int + enc_opt_str(name).len() as int + 1 + fld("version"@).len() as int + enc_opt_str(version).len() as int + 1 + fld("server"@).len() as int + enc_opt_str(server).len() as int + 1 + fld("sort"@).len() as int + enc_opt_str(sort).len() as int + 1 + fld("control"@).len() as int + enc_opt_bool(control).len() as int + 1 + fld("page"@).len() as int + enc_opt_usize(page).len() as int + 1 + fld("per_page"@).len() as int, 1 + fld("type"@).len() as int + enc_key("get_room_list"@).len() as int + 1 + fld("os"@).len() as int + enc_opt_str(os).len() as int + 1 + fld("name"@).len() as int + enc_opt_str(name).len() as int + 1 + fld("version"@).len() as int + enc_opt_str(version).len() as int + 1 + fld("server"@).len() as int + enc_opt_str(server).len() as int + 1 + fld("sort"@).len() as int + enc_opt_str(sort).len() as int + 1 + fld("control"@).len() as int + enc_opt_bool(control).len() as int + 1 + fld("page"@).len() as int + enc_opt_usize(page).len() as int + 1 + fld("per_page"@).len() as int + enc_opt_usize(per_page).len() as int) == enc_opt_usize(per_page)
        }),
{
    let m = MsgV::GetRoomList { os, name, version, server, sort, control, page, per_page };
    let t = spec_encode(m);
    assert(t == seq!['{'].add(fld("type"@)).add(enc_key("get_room_list"@)).add(seq![',']).add(fld("os"@)).add(enc_opt_str(os)).add(seq![',']).add(fld("name"@)).add(enc_opt_str(name)).add(seq![',']).add(fld("version"@)).add(enc_opt_str(version)).add(seq![',']).add(fld("server"@)).add(enc_opt_str(server)).add(seq![',']).add(fld("sort"@)).add(enc_opt_str(sort)).add(seq![',']).add(fld("control"@)).add(enc_opt_bool(control)).add(seq![',']).add(fld("page"@)).add(enc_opt_usize(page)).add(seq![',']).add(fld("per_page"@)).add(enc_opt_usize(per_page)).add(seq!['}']));
    assert(t.subrange(1 + fld("type"@).len() as int + enc_key("get_room_list"@).len() as int + 1 + fld("os"@).len() as int + enc_opt_str(os).len() as int + 1 + fld("name"@).len() as int + enc_opt_str(name).len() as int + 1 + fld("version"@).len() as int + enc_opt_str(version).len() as int + 1 + fld("server"@).len() as int + enc_opt_str(server).len() as int + 1 + fld("sort"@).len() as int + enc_opt_str(sort).len() as int + 1 + fld("control"@).len() as int + enc_opt_bool(control).len() as int + 1 + fld("page"@).len() as int, 1 + fld("type"@).len() as int + enc_key("get_room_list"@).len() as int + 1 + fld("os"@).len() as int + enc_opt_str(os).len() as int + 1 + fld("name"@).len() as int + enc_opt_str(name).len() as int + 1 + fld("version"@).len() as int + enc_opt_str(version).len() as int + 1 + fld("server"@).len() as int + enc_opt_str(server).len() as int + 1 + fld("sort"@).len() as int + enc_opt_str(sort).len() as int + 1 + fld("control"@).len() as int + enc_opt_bool(control).len() as int + 1 + fld("page"@).len() as int + enc_opt_usize(page).len() as int) =~= enc_opt_usize(page));
    assert(t[1 + fld("type"@).len() as int + enc_key("get_room_list"@).len() as int + 1 + fld("os"@).len() as int + enc_opt_str(os).len() as int + 1 + fld("name"@).len() as int + enc_opt_str(name).len() as int + 1 + fld("version"@).len() as int + enc_opt_str(version).len() as int + 1 + fld("server"@).len() as int + enc_opt_str(server).len() as int + 1 + fld("sort"@).len() as int + enc_opt_str(sort).len() as int + 1 + fld("control"@).len() as int + enc_opt_bool(control).len() as int + 1 + fld("page"@).len() as int + enc_opt_usize(page).len() as int] == ',');
    assert(t.subrange(1 + fld("type"@).len() as int + enc_key("get_room_list"@).len() as int + 1 + fld("os"@).len() as int + enc_opt_str(os).len() as int + 1 + fld("name"@).len() as int + enc_opt_str(name).len() as int + 1 + fld("version"@).len() as int + enc_opt_str(version).len() as int + 1 + fld("server"@).len() as int + enc_opt_str(server).len() as int + 1 + fld("sort"@).len() as int + enc_opt_str(sort).len() as int + 1 + fld("control"@).len() as int + enc_opt_bool(control).len() as int + 1 + fld("page"@).len() as int + enc_opt_usize(page).len() as int + 1, 1 + fld("type"@).len() as int + enc_key("get_room_list"@).len() as int + 1 + fld("os"@).len() as int + enc_opt_str(os).len() as int + 1 + fld("name"@).len() as int + enc_opt_str(name).len() as int + 1 + fld("version"@).len() as int + enc_opt_str(version).len() as int + 1 + fld("server"@).len() as int + enc_opt_str(server).len() as int + 1 + fld("sort"@).len() as int + enc_opt_str(sort).len() as int + 1 + fld("control"@).len() as int + enc_opt_bool(control).len() as int + 1 + fld("page"@).len() as int + enc_opt_usize(page).len() as int + 1 + fld("per_page"@).len() as int) =~= fld("per_page"@));
    assert(t.subrange(1 + fld("type"@).len() as int + enc_key("get_room_list"@).len() as int + 1 + fld("os"@).len() as int + enc_opt_str(os).len() as int + 1 + fld("name"@).len() as int + enc_opt_str(name).len() as int + 1 + fld("version"@).len() as int + enc_opt_str(version).len() as int + 1 + fld("server"@).len() as int + enc_opt_str(server).len() as int + 1 + fld("sort"@).len() as int + enc_opt_str(sort).len() as int + 1 + fld("control"@).len() as int + enc_opt_bool(control).len() as int + 1 + fld("page"@).len() as int + enc_opt_usize(page).len() as int + 1 + fld("per_page"@).len() as int, 1 + fld("type"@).len() as int + enc_key("get_room_list"@).len() as int + 1 + fld("os"@).len() as int + enc_opt_str(os).len() as int + 1 + fld("name"@).len() as int + enc_opt_str(name).len() as int + 1 + fld("version"@).len() as int + enc_opt_str(version).len() as int + 1 + fld("server"@).len() as int + enc_opt_str(server).len() as int + 1 + fld("sort"@).len() as int + enc_opt_str(sort).len() as int + 1 + fld("control"@).len() as int + enc_opt_bool(control).len() as int + 1 + fld("page"@).len() as int + enc_opt_usize(page).len() as int + 1 + fld("per_page"@).len() as int + enc_opt_usize(per_page).len() as int) =~= enc_opt_usize(per_page));
}

#[verifier::rlimit(100)]
#[verifier::spinoff_prover]
proof fn lemma_rt_get_room_list_layout7(os: Option<Seq<char>>, name: Option<Seq<char>>, version: Option<Seq<char>>, server: Option<Seq<char>>, sort: Option<Seq<char>>, control: Option<bool>, page: Option<usize>, per_page: Option<usize>)
    ensures
        ({
            let t = spec_encode(MsgV::GetRoomList { os, name, version, server, sort, control, page, per_page });
            &&& t[1 + fld("type"@).len() as int + enc_key("get_room_list"@).len() as int + 1 + fld("os"@).len() as int + enc_opt_str(os).len() as int + 1 + fld("name"@).len() as int + enc_opt_str(name).len() as int + 1 + fld("version"@).len() as int + enc_opt_str(version).len() as int + 1 + fld("server"@).len() as int + enc_opt_str(server).len() as int + 1 + fld("sort"@).len() as int + enc_opt_str(sort).len() as int + 1 + fld("control"@).len() as int + enc_opt_bool(control).len() as int + 1 + fld("page"@).len() as int + enc_opt_usize(page).len() as int + 1 + fld("per_page"@).len() as int + enc_opt_usize(per_page).len() as int] == '}'
        }),
{
    let m = MsgV::GetRoomList { os, name, version, server, sort, control, page, per_page };
    let t = spec_encode(m);
    assert(t == seq!['{'].add(fld("type"@)).add(enc_key("get_room_list"@)).add(seq![',']).add(fld("os"@)).add(enc_opt_str(os)).add(seq![',']).add(fld("name"@)).add(enc_opt_str(name)).add(seq![',']).add(fld("version"@)).add(enc_opt_str(version)).add(seq![',']).add(fld("server"@)).add(enc_opt_str(server)).add(seq![',']).add(fld("sort"@)).add(enc_opt_str(sort)).add(seq![',']).add(fld("control"@)).add(enc_opt_bool(control)).add(seq![',']).add(fld("page"@)).add(enc_opt_usize(page)).add(seq![',']).add(fld("per_page"@)).add(enc_opt_usize(per_page)).add(seq!['}']));
    assert(t[1 + fld("type"@).len() as int + enc_key("get_room_list"@).len() as int + 1 + fld("os"@).len() as int + enc_opt_str(os).len() as int + 1 + fld("name"@).len() as int + enc_opt_str(name).len() as int + 1 + fld("version"@).len() as int + enc_opt_str(version).len() as int + 1 + fld("server"@).len() as int + enc_opt_str(server).len() as int + 1 + fld("sort"@).len() as int + enc_opt_str(sort).len() as int + 1 + fld("control"@).len() as int + enc_opt_bool(control).len() as int + 1 + fld("page"@).len() as int + enc_opt_usize(page).len() as int + 1 + fld("per_page"@).len() as int + enc_opt_usize(per_page).len() as int] == '}');
}

/// Members of a `get_room_list` frame from position 0 on.
pub open spec fn grl_sfx0(os: Option<Seq<char>>, name: Option<Seq<char>>, version: Option<Seq<char>>, server: Option<Seq<char>>, sort: Option<Seq<char>>, control: Option<bool>, page: Option<usize>, per_page: Option<usize>) -> Seq<MemberV> {
    seq![MemberV { key: "type"@, val: PrimV::Str("get_room_list"@) }].add(grl_sfx1(os, name, version, server, sort, control, page, per_page))
}

/// Members of a `get_room_list` frame from position 1 on.
pub open spec fn grl_sfx1(os: Option<Seq<char>>, name: Option<Seq<char>>, version: Option<Seq<char>>, server: Option<Seq<char>>, sort: Option<Seq<char>>, control: Option<bool>, page: Option<usize>, per_page: Option<usize>) -> Seq<MemberV> {
    seq![MemberV { key: "os"@, val: opt_str_prim(os) }].add(grl_sfx2(os, name, version, server, sort, control, page, per_page))
}

/// Members of a `get_room_list` frame from position 2 on.
pub open spec fn grl_sfx2(os: Option<Seq<char>>, name: Option<Seq<char>>, version: Option<Seq<char>>, server: Option<Seq<char>>, sort: Option<Seq<char>>, control: Option<bool>, page: Option<usize>, per_page: Option<usize>) -> Seq<MemberV> {
    seq![MemberV { key: "name"@, val: opt_str_prim(name) }].add(grl_sfx3(os, name, version, server, sort, control, page, per_page))
}

/// Members of a `get_room_list` frame from position 3 on.
pub open spec fn grl_sfx3(os: Option<Seq<char>>, name: Option<Seq<char>>, version: Option<Seq<char>>, server: Option<Seq<char>>, sort: Option<Seq<char>>, control: Option<bool>, page: Option<usize>, per_page: Option<usize>) -> Seq<MemberV> {
    seq![MemberV { key: "version"@, val: opt_str_prim(version) }].add(grl_sfx4(os, name, version, server, sort, control, page, per_page))
}

/// Members of a `get_room_list` frame from position 4 on.
pub open spec fn grl_sfx4(os: Option<Seq<char>>, name: Option<Seq<char>>, version: Option<Seq<char>>, server: Option<Seq<char>>, sort: Option<Seq<char>>, control: Option<bool>, page: Option<usize>, per_page: Option<usize>) -> Seq<MemberV> {
    seq![MemberV { key: "server"@, val: opt_str_prim(server) }].add(grl_sfx5(os, name, version, server, sort, control, page, per_page))
}

/// Members of a `get_room_list` frame from position 5 on.
pub open spec fn grl_sfx5(os: Option<Seq<char>>, name: Option<Seq<char>>, version: Option<Seq<char>>, server: Option<Seq<char>>, sort: Option<Seq<char>>, control: Option<bool>, page: Option<usize>, per_page: Option<usize>) -> Seq<MemberV> {
    seq![MemberV { key: "sort"@, val: opt_str_prim(sort) }].add(grl_sfx6(os, name, version, server, sort, control, page, per_page))
}

/// Members of a `get_room_list` frame from position 6 on.
pub open spec fn grl_sfx6(os: Option<Seq<char>>, name: Option<Seq<char>>, version: Option<Seq<char>>, server: Option<Seq<char>>, sort: Option<Seq<char>>, control: Option<bool>, page: Option<usize>, per_page: Option<usize>) -> Seq<MemberV> {
    seq![MemberV { key: "control"@, val: opt_bool_prim(control) }].add(grl_sfx7(os, name, version, server, sort, control, page, per_page))
}

/// Members of a `get_room_list` frame from position 7 on.
pub open spec fn grl_sfx7(os: Option<Seq<char>>, name: Option<Seq<char>>, version: Option<Seq<char>>, server: Option<Seq<char>>, sort: Option<Seq<char>>, control: Option<bool>, page: Option<usize>, per_page: Option<usize>) -> Seq<MemberV> {
    seq![MemberV { key: "page"@, val: opt_usize_prim(page) }].add(grl_sfx8(os, name, version, server, sort, control, page, per_page))
}

/// Members of a `get_room_list` frame from position 8 on.
pub open spec fn grl_sfx8(os: Option<Seq<char>>, name: Option<Seq<char>>, version: Option<Seq<char>>, server: Option<Seq<char>>, sort: Option<Seq<char>>, control: Option<bool>, page: Option<usize>, per_page: Option<usize>) -> Seq<MemberV> {
    seq![MemberV { key: "per_page"@, val: opt_usize_prim(per_page) }].add(grl_sfx9(os, name, version, server, sort, control, page, per_page))
}

/// Members of a `get_room_list` frame from position 9 on.
pub open spec fn grl_sfx9(os: Option<Seq<char>>, name: Option<Seq<char>>, version: Option<Seq<char>>, server: Option<Seq<char>>, sort: Option<Seq<char>>, control: Option<bool>, page: Option<usize>, per_page: Option<usize>) -> Seq<MemberV> {
    Seq::<MemberV>::empty()
}
#[verifier::rlimit(100)]
#[verifier::spinoff_prover]
proof fn lemma_rt_get_room_list_tail0(os: Option<Seq<char>>, name: Option<Seq<char>>, version: Option<Seq<char>>, server: Option<Seq<char>>, sort: Option<Seq<char>>, control: Option<bool>, page: Option<usize>, per_page: Option<usize>)
    ensures
        ({
            let t = spec_encode(MsgV::GetRoomList { os, name, version, server, sort, control, page, per_page });
            spec_members(t, 1, true) == Some((grl_sfx0(os, name, version, server, sort, control, page, per_page), 1 + fld("type"@).len() as int + enc_key("get_room_list"@).len() as int + 1 + fld("os"@).len() as int + enc_opt_str(os).len() as int + 1 + fld("name"@).len() as int + enc_opt_str(name).len() as int + 1 + fld("version"@).len() as int + enc_opt_str(version).len() as int + 1 + fld("server"@).len() as int + enc_opt_str(server).len() as int + 1 + fld("sort"@).len() as int + enc_opt_str(sort).len() as int + 1 + fld("control"@).len() as int + enc_opt_bool(control).len() as int + 1 + fld("page"@).len() as int + enc_opt_usize(page).len() as int + 1 + fld("per_page"@).len() as int + enc_opt_usize(per_page).len() as int + 1))
        }),
{
    reveal_strlit("type");
    reveal_strlit("get_room_list");
    lemma_rt_get_room_list_layout0(os, name, version, server, sort, control, page, per_page);
    lemma_rt_get_room_list_layout1(os, name, version, server, sort, control, page, per_page);
    let m = MsgV::GetRoomList { os, name, version, server, sort, control, page, per_page };
    let t = spec_encode(m);
    assert(plain_seq("type"@));
    assert(plain_seq("get_room_list"@));
    lemma_value_key(t, 1 + fld("type"@).len() as int, "get_room_list"@);
    assert(spec_value_prim(t, 1 + fld("type"@).len() as int) == Some((PrimV::Str("get_room_list"@), 1 + fld("type"@).len() as int + enc_key("get_room_list"@).len() as int)));
    lemma_member(t, 1, true, "type"@, PrimV::Str("get_room_list"@), 1 + fld("type"@).len() as int + enc_key("get_room_list"@).len() as int);
    lemma_rt_get_room_list_tail1(os, name, version, server, sort, control, page, per_page);
    lemma_comma_then(t, 1 + fld("type"@).len() as int + enc_key("get_room_list"@).len() as int);
    assert(grl_sfx0(os, name, version, server, sort, control, page, per_page) == seq![MemberV { key: "type"@, val: PrimV::Str("get_room_list"@) }].add(grl_sfx1(os, name, version, server, sort, control, page, per_page)));
    assert(spec_members(t, 1, true) == Some((grl_sfx0(os, name, version, server, sort, control, page, per_page), 1 + fld("type"@).len() as int + enc_key("get_room_list"@).len() as int + 1 + fld("os"@).len() as int + enc_opt_str(os).len() as int + 1 + fld("name"@).len() as int + enc_opt_str(name).len() as int + 1 + fld("version"@).len() as int + enc_opt_str(version).len() as int + 1 + fld("server"@).len() as int + enc_opt_str(server).len() as int + 1 + fld("sort"@).len() as int + enc_opt_str(sort).len() as int + 1 + fld("control"@).len() as int + enc_opt_bool(control).len() as int + 1 + fld("page"@).len() as int + enc_opt_usize(page).len() as int + 1 + fld("per_page"@).len() as int + enc_opt_usize(per_page).len() as int + 1)));
}

#[verifier::rlimit(100)]
#[verifier::spinoff_prover]
proof fn lemma_rt_get_room_list_val1(os: Option<Seq<char>>, name: Option<Seq<char>>, version: Option<Seq<char>>, server: Option<Seq<char>>, sort: Option<Seq<char>>, control: Option<bool>, page: Option<usize>, per_page: Option<usize>)
    ensures
        ({
            let t = spec_encode(MsgV::GetRoomList { os, name, version, server, sort, control, page, per_page });
            spec_value_prim(t, 1 + fld("type"@).len() as int + enc_key("get_room_list"@).len() as int + 1 + fld("os"@).len() as int) == Some((opt_str_prim(os), 1 + fld("type"@).len() as int + enc_key("get_room_list"@).len() as int + 1 + fld("os"@).len() as int + enc_opt_str(os).len() as int))
        }),
{
    lemma_rt_get_room_list_layout0(os, name, version, server, sort, control, page, per_page);
    lemma_rt_get_room_list_layout1(os, name, version, server, sort, control, page, per_page);
    let m = MsgV::GetRoomList { os, name, version, server, sort, control, page, per_page };
    let t = spec_encode(m);
    let vp: int = 1 + fld("type"@).len() as int + enc_key("get_room_list"@).len() as int + 1 + fld("os"@).len() as int;
    assert(t.subrange(vp, vp + enc_opt_str(os).len() as int) == enc_opt_str(os));
    match os {
        Some(sv) => {
            assert(enc_opt_str(os) == enc_str(sv));
            assert(t.subrange(vp, vp + enc_str(sv).len() as int) == enc_str(sv));
            lemma_value_str(t, vp, sv);
        },
        None => {
            assert(enc_opt_str(os) == enc_null());
            assert(t.subrange(vp, vp + 4) == enc_null());
            lemma_value_null(t, vp);
        },
    }
    assert(spec_value_prim(t, vp) == Some((opt_str_prim(os), vp + enc_opt_str(os).len() as int)));
}

#[verifier::rlimit(100)]
#[verifier::spinoff_prover]
proof fn lemma_rt_get_room_list_val2(os: Option<Seq<char>>, name: Option<Seq<char>>, version: Option<Seq<char>>, server: Option<Seq<char>>, sort: Option<Seq<char>>, control: Option<bool>, page: Option<usize>, per_page: Option<usize>)
    ensures
        ({
            let t = spec_encode(MsgV::GetRoomList { os, name, version, server, sort, control, page, per_page });
            spec_value_prim(t, 1 + fld("type"@).len() as int + enc_key("get_room_list"@).len() as int + 1 + fld("os"@).len() as int + enc_opt_str(os).len() as int + 1 + fld("name"@).len() as int) == Some((opt_str_prim(name), 1 + fld("type"@).len() as int + enc_key("get_room_list"@).len() as int + 1 + fld("os"@).len() as int + enc_opt_str(os).len() as int + 1 + fld("name"@).len() as int + enc_opt_str(name).len() as int))
        }),
{
    lemma_rt_get_room_list_layout0(os, name, version, server, sort, control, page, per_page);
    lemma_rt_get_room_list_layout2(os, name, version, server, sort, control, page, per_page);
    let m = MsgV::GetRoomList { os, name, version, server, sort, control, page, per_page };
    let t = spec_encode(m);
    match name {
        Some(sv) => {
            lemma_value_str(t, 1 + fld("type"@).len() as int + enc_key("get_room_list"@).len() as int + 1 + fld("os"@).len() as int + enc_opt_str(os).len() as int + 1 + fld("name"@).len() as int, sv);
        },
        None => {
            lemma_value_null(t, 1 + fld("type"@).len() as int + enc_key("get_room_list"@).len() as int + 1 + fld("os"@).len() as int + enc_opt_str(os).len() as int + 1 + fld("name"@).len() as int);
        },
    }
}

#[verifier::rlimit(100)]
#[verifier::spinoff_prover]
proof fn lemma_rt_get_room_list_val3(os: Option<Seq<char>>, name: Option<Seq<char>>, version: Option<Seq<char>>, server: Option<Seq<char>>, sort: Option<Seq<char>>, control: Option<bool>, page: Option<usize>, per_page: Option<usize>)
    ensures
        ({
            let t = spec_encode(MsgV::GetRoomList { os, name, version, server, sort, control, page, per_page });
            spec_value_prim(t, 1 + fld("type"@).len() as int + enc_key("get_room_list"@).len() as int + 1 + fld("os"@).len() as int + enc_opt_str(os).len() as int + 1 + fld("name"@).len() as int + enc_opt_str(name).len() as int + 1 + fld("version"@).len() as int) == Some((opt_str_prim(version), 1 + fld("type"@).len() as int + enc_key("get_room_list"@).len() as int + 1 + fld("os"@).len() as int + enc_opt_str(os).len() as int + 1 + fld("name"@).len() as int + enc_opt_str(name).len() as int + 1 + fld("version"@).len() as int + enc_opt_str(version).len() as int))
        }),
{
    lemma_rt_get_room_list_layout0(os, name, version, server, sort, control, page, per_page);
    lemma_rt_get_room_list_layout3(os, name, version, server, sort, control, page, per_page);
    let m = MsgV::GetRoomList { os, name, version, server, sort, control, page, per_page };
    let t = spec_encode(m);
    match version {
        Some(sv) => {
            lemma_value_str(t, 1 + fld("type"@).len() as int + enc_key("get_room_list"@).len() as int + 1 + fld("os"@).len() as int + enc_opt_str(os).len() as int + 1 + fld("name"@).len() as int + enc_opt_str(name).len() as int + 1 + fld("version"@).len() as int, sv);
        },
        None => {
            lemma_value_null(t, 1 + fld("type"@).len() as int + enc_key("get_room_list"@).len() as int + 1 + fld("os"@).len() as int + enc_opt_str(os).len() as int + 1 + fld("name"@).len() as int + enc_opt_str(name).len() as int + 1 + fld("version"@).len() as int);
        },
    }
}

#[verifier::rlimit(100)]
#[verifier::spinoff_prover]
proof fn lemma_rt_get_room_list_val4(os: Option<Seq<char>>, name: Option<Seq<char>>, version: Option<Seq<char>>, server: Option<Seq<char>>, sort: Option<Seq<char>>, control: Option<bool>, page: Option<usize>, per_page: Option<usize>)
    ensures
        ({
            let t = spec_encode(MsgV::GetRoomList { os, name, version, server, sort, control, page, per_page });
            spec_value_prim(t, 1 + fld("type"@).len() as int + enc_key("get_room_list"@).len() as int + 1 + fld("os"@).len() as int + enc_opt_str(os).len() as int + 1 + fld("name"@).len() as int + enc_opt_str(name).len() as int + 1 + fld("version"@).len() as int + enc_opt_str(version).len() as int + 1 + fld("server"@).len() as int) == Some((opt_str_prim(server), 1 + fld("type"@).len() as int + enc_key("get_room_list"@).len() as int + 1 + fld("os"@).len() as int + enc_opt_str(os).len() as int + 1 + fld("name"@).len() as int + enc_opt_str(name).len() as int + 1 + fld("version"@).len() as int + enc_opt_str(version).len() as int + 1 + fld("server"@).len() as int + enc_opt_str(server).len() as int))
        }),
{
    lemma_rt_get_room_list_layout0(os, name, version, server, sort, control, page, per_page);
    lemma_rt_get_room_list_layout3(os, name, version, server, sort, control, page, per_page);
    let m = MsgV::GetRoomList { os, name, version, server, sort, control, page, per_page };
    let t = spec_encode(m);
    match server {
        Some(sv) => {
            lemma_value_str(t, 1 + fld("type"@).len() as int + enc_key("get_room_list"@).len() as int + 1 + fld("os"@).len() as int + enc_opt_str(os).len() as int + 1 + fld("name"@).len() as int + enc_opt_str(name).len() as int + 1 + fld("version"@).len() as int + enc_opt_str(version).len() as int + 1 + fld("server"@).len() as int, sv);
        },
        None => {
            lemma_value_null(t, 1 + fld("type"@).len() as int + enc_key("get_room_list"@).len() as int + 1 + fld("os"@).len() as int + enc_opt_str(os).len() as int + 1 + fld("name"@).len() as int + enc_opt_str(name).len() as int + 1 + fld("version"@).len() as int + enc_opt_str(version).len() as int + 1 + fld("server"@).len() as int);
        },
    }
}
#[verifier::rlimit(100)]
#[verifier::spinoff_prover]
proof fn lemma_rt_get_room_list_tail1(os: Option<Seq<char>>, name: Option<Seq<char>>, version: Option<Seq<char>>, server: Option<Seq<char>>, sort: Option<Seq<char>>, control: Option<bool>, page: Option<usize>, per_page: Option<usize>)
    ensures
        ({
            let t = spec_encode(MsgV::GetRoomList { os, name, version, server, sort, control, page, per_page });
            spec_members(t, 1 + fld("type"@).len() as int + enc_key("get_room_list"@).len() as int + 1, false) == Some((grl_sfx1(os, name, version, server, sort, control, page, per_page), 1 + fld("type"@).len() as int + enc_key("get_room_list"@).len() as int + 1 + fld("os"@).len() as int + enc_opt_str(os).len() as int + 1 + fld("name"@).len() as int + enc_opt_str(name).len() as int + 1 + fld("version"@).len() as int + enc_opt_str(version).len() as int + 1 + fld("server"@).len() as int + enc_opt_str(server).len() as int + 1 + fld("sort"@).len() as int + enc_opt_str(sort).len() as int + 1 + fld("control"@).len() as int + enc_opt_bool(control).len() as int + 1 + fld("page"@).len() as int + enc_opt_usize(page).len() as int + 1 + fld("per_page"@).len() as int + enc_opt_usize(per_page).len() as int + 1))
        }),
{
    reveal_strlit("os");
    lemma_rt_get_room_list_layout0(os, name, version, server, sort, control, page, per_page);
    lemma_rt_get_room_list_layout1(os, name, version, server, sort, control, page, per_page);
    lemma_rt_get_room_list_val1(os, name, version, server, sort, control, page, per_page);
    let m = MsgV::GetRoomList { os, name, version, server, sort, control, page, per_page };
    let t = spec_encode(m);
    assert(plain_seq("os"@));
    lemma_member(t, 1 + fld("type"@).len() as int + enc_key("get_room_list"@).len() as int + 1, false, "os"@, opt_str_prim(os), 1 + fld("type"@).len() as int + enc_key("get_room_list"@).len() as int + 1 + fld("os"@).len() as int + enc_opt_str(os).len() as int);
    lemma_rt_get_room_list_tail2(os, name, version, server, sort, control, page, per_page);
    lemma_comma_then(t, 1 + fld("type"@).len() as int + enc_key("get_room_list"@).len() as int + 1 + fld("os"@).len() as int + enc_opt_str(os).len() as int);
    assert(grl_sfx1(os, name, version, server, sort, control, page, per_page) == seq![MemberV { key: "os"@, val: opt_str_prim(os) }].add(grl_sfx2(os, name, version, server, sort, control, page, per_page)));
    assert(spec_members(t, 1 + fld("type"@).len() as int + enc_key("get_room_list"@).len() as int + 1, false) == Some((grl_sfx1(os, name, version, server, sort, control, page, per_page), 1 + fld("type"@).len() as int + enc_key("get_room_list"@).len() as int + 1 + fld("os"@).len() as int + enc_opt_str(os).len() as int + 1 + fld("name"@).len() as int + enc_opt_str(name).len() as int + 1 + fld("version"@).len() as int + enc_opt_str(version).len() as int + 1 + fld("server"@).len() as int + enc_opt_str(server).len() as int + 1 + fld("sort"@).len() as int + enc_opt_str(sort).len() as int + 1 + fld("control"@).len() as int + enc_opt_bool(control).len() as int + 1 + fld("page"@).len() as int + enc_opt_usize(page).len() as int + 1 + fld("per_page"@).len() as int + enc_opt_usize(per_page).len() as int + 1)));
}

#[verifier::rlimit(100)]
#[verifier::spinoff_prover]
proof fn lemma_rt_get_room_list_tail2(os: Option<Seq<char>>, name: Option<Seq<char>>, version: Option<Seq<char>>, server: Option<Seq<char>>, sort: Option<Seq<char>>, control: Option<bool>, page: Option<usize>, per_page: Option<usize>)
    ensures
        ({
            let t = spec_encode(MsgV::GetRoomList { os, name, version, server, sort, control, page, per_page });
            spec_members(t, 1 + fld("type"@).len() as int + enc_key("get_room_list"@).len() as int + 1 + fld("os"@).len() as int + enc_opt_str(os).len() as int + 1, false) == Some((grl_sfx2(os, name, version, server, sort, control, page, per_page), 1 + fld("type"@).len() as int + enc_key("get_room_list"@).len() as int + 1 + fld("os"@).len() as int + enc_opt_str(os).len() as int + 1 + fld("name"@).len() as int + enc_opt_str(name).len() as int + 1 + fld("version"@).len() as int + enc_opt_str(version).len() as int + 1 + fld("server"@).len() as int + enc_opt_str(server).len() as int + 1 + fld("sort"@).len() as int + enc_opt_str(sort).len() as int + 1 + fld("control"@).len() as int + enc_opt_bool(control).len() as int + 1 + fld("page"@).len() as int + enc_opt_usize(page).len() as int + 1 + fld("per_page"@).len() as int + enc_opt_usize(per_page).len() as int + 1))
        }),
{
    reveal_strlit("name");
    lemma_rt_get_room_list_layout0(os, name, version, server, sort, control, page, per_page);
    lemma_rt_get_room_list_layout2(os, name, version, server, sort, control, page, per_page);
    lemma_rt_get_room_list_val2(os, name, version, server, sort, control, page, per_page);
    let m = MsgV::GetRoomList { os, name, version, server, sort, control, page, per_page };
    let t = spec_encode(m);
    assert(plain_seq("name"@));
    lemma_member(t, 1 + fld("type"@).len() as int + enc_key("get_room_list"@).len() as int + 1 + fld("os"@).len() as int + enc_opt_str(os).len() as int + 1, false, "name"@, opt_str_prim(name), 1 + fld("type"@).len() as int + enc_key("get_room_list"@).len() as int + 1 + fld("os"@).len() as int + enc_opt_str(os).len() as int + 1 + fld("name"@).len() as int + enc_opt_str(name).len() as int);
    lemma_rt_get_room_list_tail3(os, name, version, server, sort, control, page, per_page);
    lemma_comma_then(t, 1 + fld("type"@).len() as int + enc_key("get_room_list"@).len() as int + 1 + fld("os"@).len() as int + enc_opt_str(os).len() as int + 1 + fld("name"@).len() as int + enc_opt_str(name).len() as int);
    assert(grl_sfx2(os, name, version, server, sort, control, page, per_page) == seq![MemberV { key: "name"@, val: opt_str_prim(name) }].add(grl_sfx3(os, name, version, server, sort, control, page, per_page)));
    assert(spec_members(t, 1 + fld("type"@).len() as int + enc_key("get_room_list"@).len() as int + 1 + fld("os"@).len() as int + enc_opt_str(os).len() as int + 1, false) == Some((grl_sfx2(os, name, version, server, sort, control, page, per_page), 1 + fld("type"@).len() as int + enc_key("get_room_list"@).len() as int + 1 + fld("os"@).len() as int + enc_opt_str(os).len() as int + 1 + fld("name"@).len() as int + enc_opt_str(name).len() as int + 1 + fld("version"@).len() as int + enc_opt_str(version).len() as int + 1 + fld("server"@).len() as int + enc_opt_str(server).len() as int + 1 + fld("sort"@).len() as int + enc_opt_str(sort).len() as int + 1 + fld("control"@).len() as int + enc_opt_bool(control).len() as int + 1 + fld("page"@).len() as int + enc_opt_usize(page).len() as int + 1 + fld("per_page"@).len() as int + enc_opt_usize(per_page).len() as int + 1)));
}

#[verifier::rlimit(100)]
#[verifier::spinoff_prover]
proof fn lemma_rt_get_room_list_tail3(os: Option<Seq<char>>, name: Option<Seq<char>>, version: Option<Seq<char>>, server: Option<Seq<char>>, sort: Option<Seq<char>>, control: Option<bool>, page: Option<usize>, per_page: Option<usize>)
    ensures
        ({
            let t = spec_encode(MsgV::GetRoomList { os, name, version, server, sort, control, page, per_page });
            spec_members(t, 1 + fld("type"@).len() as int + enc_key("get_room_list"@).len() as int + 1 + fld("os"@).len() as int + enc_opt_str(os).len() as int + 1 + fld("name"@).len() as int + enc_opt_str(name).len() as int + 1, false) == Some((grl_sfx3(os, name, version, server, sort, control, page, per_page), 1 + fld("type"@).len() as int + enc_key("get_room_list"@).len() as int + 1 + fld("os"@).len() as int + enc_opt_str(os).len() as int + 1 + fld("name"@).len() as int + enc_opt_str(name).len() as int + 1 + fld("version"@).len() as int + enc_opt_str(version).len() as int + 1 + fld("server"@).len() as int + enc_opt_str(server).len() as int + 1 + fld("sort"@).len() as int + enc_opt_str(sort).len() as int + 1 + fld("control"@).len() as int + enc_opt_bool(control).len() as int + 1 + fld("page"@).len() as int + enc_opt_usize(page).len() as int + 1 + fld("per_page"@).len() as int + enc_opt_usize(per_page).len() as int + 1))
        }),
{
    reveal_strlit("version");
    lemma_rt_get_room_list_layout0(os, name, version, server, sort, control, page, per_page);
    lemma_rt_get_room_list_layout2(os, name, version, server, sort, control, page, per_page);
    lemma_rt_get_room_list_layout3(os, name, version, server, sort, control, page, per_page);
    lemma_rt_get_room_list_val3(os, name, version, server, sort, control, page, per_page);
    let m = MsgV::GetRoomList { os, name, version, server, sort, control, page, per_page };
    let t = spec_encode(m);
    assert(plain_seq("version"@));
    lemma_member(t, 1 + fld("type"@).len() as int + enc_key("get_room_list"@).len() as int + 1 + fld("os"@).len() as int + enc_opt_str(os).len() as int + 1 + fld("name"@).len() as int + enc_opt_str(name).len() as int + 1, false, "version"@, opt_str_prim(version), 1 + fld("type"@).len() as int + enc_key("get_room_list"@).len() as int + 1 + fld("os"@).len() as int + enc_opt_str(os).len() as int + 1 + fld("name"@).len() as int + enc_opt_str(name).len() as int + 1 + fld("version"@).len() as int + enc_opt_str(version).len() as int);
    lemma_rt_get_room_list_tail4(os, name, version, server, sort, control, page, per_page);
    lemma_comma_then(t, 1 + fld("type"@).len() as int + enc_key("get_room_list"@).len() as int + 1 + fld("os"@).len() as int + enc_opt_str(os).len() as int + 1 + fld("name"@).len() as int + enc_opt_str(name).len() as int + 1 + fld("version"@).len() as int + enc_opt_str(version).len() as int);
    assert(grl_sfx3(os, name, version, server, sort, control, page, per_page) == seq![MemberV { key: "version"@, val: opt_str_prim(version) }].add(grl_sfx4(os, name, version, server, sort, control, page, per_page)));
    assert(spec_members(t, 1 + fld("type"@).len() as int + enc_key("get_room_list"@).len() as int + 1 + fld("os"@).len() as int + enc_opt_str(os).len() as int + 1 + fld("name"@).len() as int + enc_opt_str(name).len() as int + 1, false) == Some((grl_sfx3(os, name, version, server, sort, control, page, per_page), 1 + fld("type"@).len() as int + enc_key("get_room_list"@).len() as int + 1 + fld("os"@).len() as int + enc_opt_str(os).len() as int + 1 + fld("name"@).len() as int + enc_opt_str(name).len() as int + 1 + fld("version"@).len() as int + enc_opt_str(version).len() as int + 1 + fld("server"@).len() as int + enc_opt_str(server).len() as int + 1 + fld("sort"@).len() as int + enc_opt_str(sort).len() as int + 1 + fld("control"@).len() as int + enc_opt_bool(control).len() as int + 1 + fld("page"@).len() as int + enc_opt_usize(page).len() as int + 1 + fld("per_page"@).len() as int + enc_opt_usize(per_page).len() as int + 1)));
}

#[verifier::rlimit(100)]
#[verifier::spinoff_prover]
proof fn lemma_rt_get_room_list_tail4(os: Option<Seq<char>>, name: Option<Seq<char>>, version: Option<Seq<char>>, server: Option<Seq<char>>, sort: Option<Seq<char>>, control: Option<bool>, page: Option<usize>, per_page: Option<usize>)
    ensures
        ({
            let t = spec_encode(MsgV::GetRoomList { os, name, version, server, sort, control, page, per_page });
            spec_members(t, 1 + fld("type"@).len() as int + enc_key("get_room_list"@).len() as int + 1 + fld("os"@).len() as int + enc_opt_str(os).len() as int + 1 + fld("name"@).len() as int + enc_opt_str(name).len() as int + 1 + fld("version"@).len() as int + enc_opt_str(version).len() as int + 1, false) == Some((grl_sfx4(os, name, version, server, sort, control, page, per_page), 1 + fld("type"@).len() as int + enc_key("get_room_list"@).len() as int + 1 + fld("os"@).len() as int + enc_opt_str(os).len() as int + 1 + fld("name"@).len() as int + enc_opt_str(name).len() as int + 1 + fld("version"@).len() as int + enc_opt_str(version).len() as int + 1 + fld("server"@).len() as int + enc_opt_str(server).len() as int + 1 + fld("sort"@).len() as int + enc_opt_str(sort).len() as int + 1 + fld("control"@).len() as int + enc_opt_bool(control).len() as int + 1 + fld("page"@).len() as int + enc_opt_usize(page).len() as int + 1 + fld("per_page"@).len() as int + enc_opt_usize(per_page).len() as int + 1))
        }),
{
    reveal_strlit("server");
    lemma_rt_get_room_list_layout0(os, name, version, server, sort, control, page, per_page);
    lemma_rt_get_room_list_layout3(os, name, version, server, sort, control, page, per_page);
    lemma_rt_get_room_list_layout4(os, name, version, server, sort, control, page, per_page);
    lemma_rt_get_room_list_val4(os, name, version, server, sort, control, page, per_page);
    let m = MsgV::GetRoomList { os, name, version, server, sort, control, page, per_page };
    let t = spec_encode(m);
    assert(plain_seq("server"@));
    lemma_member(t, 1 + fld("type"@).len() as int + enc_key("get_room_list"@).len() as int + 1 + fld("os"@).len() as int + enc_opt_str(os).len() as int + 1 + fld("name"@).len() as int + enc_opt_str(name).len() as int + 1 + fld("version"@).len() as int + enc_opt_str(version).len() as int + 1, false, "server"@, opt_str_prim(server), 1 + fld("type"@).len() as int + enc_key("get_room_list"@).len() as int + 1 + fld("os"@).len() as int + enc_opt_str(os).len() as int + 1 + fld("name"@).len() as int + enc_opt_str(name).len() as int + 1 + fld("version"@).len() as int + enc_opt_str(version).len() as int + 1 + fld("server"@).len() as int + enc_opt_str(server).len() as int);
    lemma_rt_get_room_list_tail5(os, name, version, server, sort, control, page, per_page);
    lemma_comma_then(t, 1 + fld("type"@).len() as int + enc_key("get_room_list"@).len() as int + 1 + fld("os"@).len() as int + enc_opt_str(os).len() as int + 1 + fld("name"@).len() as int + enc_opt_str(name).len() as int + 1 + fld("version"@).len() as int + enc_opt_str(version).len() as int + 1 + fld("server"@).len() as int + enc_opt_str(server).len() as int);
    assert(grl_sfx4(os, name, version, server, sort, control, page, per_page) == seq![MemberV { key: "server"@, val: opt_str_prim(server) }].add(grl_sfx5(os, name, version, server, sort, control, page, per_page)));
    assert(spec_members(t, 1 + fld("type"@).len() as int + enc_key("get_room_list"@).len() as int + 1 + fld("os"@).len() as int + enc_opt_str(os).len() as int + 1 + fld("name"@).len() as int + enc_opt_str(name).len() as int + 1 + fld("version"@).len() as int + enc_opt_str(version).len() as int + 1, false) == Some((grl_sfx4(os, name, version, server, sort, control, page, per_page), 1 + fld("type"@).len() as int + enc_key("get_room_list"@).len() as int + 1 + fld("os"@).len() as int + enc_opt_str(os).len() as int + 1 + fld("name"@).len() as int + enc_opt_str(name).len() as int + 1 + fld("version"@).len() as int + enc_opt_str(version).len() as int + 1 + fld("server"@).len() as int + enc_opt_str(server).len() as int + 1 + fld("sort"@).len() as int + enc_opt_str(sort).len() as int + 1 + fld("control"@).len() as int + enc_opt_bool(control).len() as int + 1 + fld("page"@).len() as int + enc_opt_usize(page).len() as int + 1 + fld("per_page"@).len() as int + enc_opt_usize(per_page).len() as int + 1)));
}


#[verifier::rlimit(100)]
#[verifier::spinoff_prover]
proof fn lemma_rt_get_room_list_tail5(os: Option<Seq<char>>, name: Option<Seq<char>>, version: Option<Seq<char>>, server: Option<Seq<char>>, sort: Option<Seq<char>>, control: Option<bool>, page: Option<usize>, per_page: Option<usize>)
    ensures
        ({
            let t = spec_encode(MsgV::GetRoomList { os, name, version, server, sort, control, page, per_page });
            spec_members(t, 1 + fld("type"@).len() as int + enc_key("get_room_list"@).len() as int + 1 + fld("os"@).len() as int + enc_opt_str(os).len() as int + 1 + fld("name"@).len() as int + enc_opt_str(name).len() as int + 1 + fld("version"@).len() as int + enc_opt_str(version).len() as int + 1 + fld("server"@).len() as int + enc_opt_str(server).len() as int + 1, false) == Some((grl_sfx5(os, name, version, server, sort, control, page, per_page), 1 + fld("type"@).len() as int + enc_key("get_room_list"@).len() as int + 1 + fld("os"@).len() as int + enc_opt_str(os).len() as int + 1 + fld("name"@).len() as int + enc_opt_str(name).len() as int + 1 + fld("version"@).len() as int + enc_opt_str(version).len() as int + 1 + fld("server"@).len() as int + enc_opt_str(server).len() as int + 1 + fld("sort"@).len() as int + enc_opt_str(sort).len() as int + 1 + fld("control"@).len() as int + enc_opt_bool(control).len() as int + 1 + fld("page"@).len() as int + enc_opt_usize(page).len() as int + 1 + fld("per_page"@).len() as int + enc_opt_usize(per_page).len() as int + 1))
        }),
{
    reveal_strlit("sort");
    lemma_rt_get_room_list_layout0(os, name, version, server, sort, control, page, per_page);
    lemma_rt_get_room_list_layout4(os, name, version, server, sort, control, page, per_page);
    let m = MsgV::GetRoomList { os, name, version, server, sort, control, page, per_page };
    let t = spec_encode(m);
    assert(plain_seq("sort"@));
    match sort { Some(sv) => { lemma_value_str(t, 1 + fld("type"@).len() as int + enc_key("get_room_list"@).len() as int + 1 + fld("os"@).len() as int + enc_opt_str(os).len() as int + 1 + fld("name"@).len() as int + enc_opt_str(name).len() as int + 1 + fld("version"@).len() as int + enc_opt_str(version).len() as int + 1 + fld("server"@).len() as int + enc_opt_str(server).len() as int + 1 + fld("sort"@).len() as int, sv); }, None => { lemma_value_null(t, 1 + fld("type"@).len() as int + enc_key("get_room_list"@).len() as int + 1 + fld("os"@).len() as int + enc_opt_str(os).len() as int + 1 + fld("name"@).len() as int + enc_opt_str(name).len() as int + 1 + fld("version"@).len() as int + enc_opt_str(version).len() as int + 1 + fld("server"@).len() as int + enc_opt_str(server).len() as int + 1 + fld("sort"@).len() as int); } }
    assert(spec_value_prim(t, 1 + fld("type"@).len() as int + enc_key("get_room_list"@).len() as int + 1 + fld("os"@).len() as int + enc_opt_str(os).len() as int + 1 + fld("name"@).len() as int + enc_opt_str(name).len() as int + 1 + fld("version"@).len() as int + enc_opt_str(version).len() as int + 1 + fld("server"@).len() as int + enc_opt_str(server).len() as int + 1 + fld("sort"@).len() as int) == Some((opt_str_prim(sort), 1 + fld("type"@).len() as int + enc_key("get_room_list"@).len() as int + 1 + fld("os"@).len() as int + enc_opt_str(os).len() as int + 1 + fld("name"@).len() as int + enc_opt_str(name).len() as int + 1 + fld("version"@).len() as int + enc_opt_str(version).len() as int + 1 + fld("server"@).len() as int + enc_opt_str(server).len() as int + 1 + fld("sort"@).len() as int + enc_opt_str(sort).len() as int)));
    lemma_member(t, 1 + fld("type"@).len() as int + enc_key("get_room_list"@).len() as int + 1 + fld("os"@).len() as int + enc_opt_str(os).len() as int + 1 + fld("name"@).len() as int + enc_opt_str(name).len() as int + 1 + fld("version"@).len() as int + enc_opt_str(version).len() as int + 1 + fld("server"@).len() as int + enc_opt_str(server).len() as int + 1, false, "sort"@, opt_str_prim(sort), 1 + fld("type"@).len() as int + enc_key("get_room_list"@).len() as int + 1 + fld("os"@).len() as int + enc_opt_str(os).len() as int + 1 + fld("name"@).len() as int + enc_opt_str(name).len() as int + 1 + fld("version"@).len() as int + enc_opt_str(version).len() as int + 1 + fld("server"@).len() as int + enc_opt_str(server).len() as int + 1 + fld("sort"@).len() as int + enc_opt_str(sort).len() as int);
    lemma_rt_get_room_list_tail6(os, name, version, server, sort, control, page, per_page);
    lemma_comma_then(t, 1 + fld("type"@).len() as int + enc_key("get_room_list"@).len() as int + 1 + fld("os"@).len() as int + enc_opt_str(os).len() as int + 1 + fld("name"@).len() as int + enc_opt_str(name).len() as int + 1 + fld("version"@).len() as int + enc_opt_str(version).len() as int + 1 + fld("server"@).len() as int + enc_opt_str(server).len() as int + 1 + fld("sort"@).len() as int + enc_opt_str(sort).len() as int);
    assert(grl_sfx5(os, name, version, server, sort, control, page, per_page) == seq![MemberV { key: "sort"@, val: opt_str_prim(sort) }].add(grl_sfx6(os, name, version, server, sort, control, page, per_page)));
    assert(spec_members(t, 1 + fld("type"@).len() as int + enc_key("get_room_list"@).len() as int + 1 + fld("os"@).len() as int + enc_opt_str(os).len() as int + 1 + fld("name"@).len() as int + enc_opt_str(name).len() as int + 1 + fld("version"@).len() as int + enc_opt_str(version).len() as int + 1 + fld("server"@).len() as int + enc_opt_str(server).len() as int + 1, false) == Some((grl_sfx5(os, name, version, server, sort, control, page, per_page), 1 + fld("type"@).len() as int + enc_key("get_room_list"@).len() as int + 1 + fld("os"@).len() as int + enc_opt_str(os).len() as int + 1 + fld("name"@).len() as int + enc_opt_str(name).len() as int + 1 + fld("version"@).len() as int + enc_opt_str(version).len() as int + 1 + fld("server"@).len() as int + enc_opt_str(server).len() as int + 1 + fld("sort"@).len() as int + enc_opt_str(sort).len() as int + 1 + fld("control"@).len() as int + enc_opt_bool(control).len() as int + 1 + fld("page"@).len() as int + enc_opt_usize(page).len() as int + 1 + fld("per_page"@).len() as int + enc_opt_usize(per_page).len() as int + 1)));
}

#[verifier::rlimit(100)]
#[verifier::spinoff_prover]
proof fn lemma_rt_get_room_list_tail6(os: Option<Seq<char>>, name: Option<Seq<char>>, version: Option<Seq<char>>, server: Option<Seq<char>>, sort: Option<Seq<char>>, control: Option<bool>, page: Option<usize>, per_page: Option<usize>)
    ensures
        ({
            let t = spec_encode(MsgV::GetRoomList { os, name, version, server, sort, control, page, per_page });
            spec_members(t, 1 + fld("type"@).len() as int + enc_key("get_room_list"@).len() as int + 1 + fld("os"@).len() as int + enc_opt_str(os).len() as int + 1 + fld("name"@).len() as int + enc_opt_str(name).len() as int + 1 + fld("version"@).len() as int + enc_opt_str(version).len() as int + 1 + fld("server"@).len() as int + enc_opt_str(server).len() as int + 1 + fld("sort"@).len() as int + enc_opt_str(sort).len() as int + 1, false) == Some((grl_sfx6(os, name, version, server, sort, control, page, per_page), 1 + fld("type"@).len() as int + enc_key("get_room_list"@).len() as int + 1 + fld("os"@).len() as int + enc_opt_str(os).len() as int + 1 + fld("name"@).len() as int + enc_opt_str(name).len() as int + 1 + fld("version"@).len() as int + enc_opt_str(version).len() as int + 1 + fld("server"@).len() as int + enc_opt_str(server).len() as int + 1 + fld("sort"@).len() as int + enc_opt_str(sort).len() as int + 1 + fld("control"@).len() as int + enc_opt_bool(control).len() as int + 1 + fld("page"@).len() as int + enc_opt_usize(page).len() as int + 1 + fld("per_page"@).len() as int + enc_opt_usize(per_page).len() as int + 1))
        }),
{
    reveal_strlit("control");
    lemma_rt_get_room_list_layout0(os, name, version, server, sort, control, page, per_page);
    lemma_rt_get_room_list_layout5(os, name, version, server, sort, control, page, per_page);
    let m = MsgV::GetRoomList { os, name, version, server, sort, control, page, per_page };
    let t = spec_encode(m);
    assert(plain_seq("control"@));
    match control { Some(bv) => { lemma_value_bool(t, 1 + fld("type"@).len() as int + enc_key("get_room_list"@).len() as int + 1 + fld("os"@).len() as int + enc_opt_str(os).len() as int + 1 + fld("name"@).len() as int + enc_opt_str(name).len() as int + 1 + fld("version"@).len() as int + enc_opt_str(version).len() as int + 1 + fld("server"@).len() as int + enc_opt_str(server).len() as int + 1 + fld("sort"@).len() as int + enc_opt_str(sort).len() as int + 1 + fld("control"@).len() as int, bv); }, None => { lemma_value_null(t, 1 + fld("type"@).len() as int + enc_key("get_room_list"@).len() as int + 1 + fld("os"@).len() as int + enc_opt_str(os).len() as int + 1 + fld("name"@).len() as int + enc_opt_str(name).len() as int + 1 + fld("version"@).len() as int + enc_opt_str(version).len() as int + 1 + fld("server"@).len() as int + enc_opt_str(server).len() as int + 1 + fld("sort"@).len() as int + enc_opt_str(sort).len() as int + 1 + fld("control"@).len() as int); } }
    assert(spec_value_prim(t, 1 + fld("type"@).len() as int + enc_key("get_room_list"@).len() as int + 1 + fld("os"@).len() as int + enc_opt_str(os).len() as int + 1 + fld("name"@).len() as int + enc_opt_str(name).len() as int + 1 + fld("version"@).len() as int + enc_opt_str(version).len() as int + 1 + fld("server"@).len() as int + enc_opt_str(server).len() as int + 1 + fld("sort"@).len() as int + enc_opt_str(sort).len() as int + 1 + fld("control"@).len() as int) == Some((opt_bool_prim(control), 1 + fld("type"@).len() as int + enc_key("get_room_list"@).len() as int + 1 + fld("os"@).len() as int + enc_opt_str(os).len() as int + 1 + fld("name"@).len() as int + enc_opt_str(name).len() as int + 1 + fld("version"@).len() as int + enc_opt_str(version).len() as int + 1 + fld("server"@).len() as int + enc_opt_str(server).len() as int + 1 + fld("sort"@).len() as int + enc_opt_str(sort).len() as int + 1 + fld("control"@).len() as int + enc_opt_bool(control).len() as int)));
    lemma_member(t, 1 + fld("type"@).len() as int + enc_key("get_room_list"@).len() as int + 1 + fld("os"@).len() as int + enc_opt_str(os).len() as int + 1 + fld("name"@).len() as int + enc_opt_str(name).len() as int + 1 + fld("version"@).len() as int + enc_opt_str(version).len() as int + 1 + fld("server"@).len() as int + enc_opt_str(server).len() as int + 1 + fld("sort"@).len() as int + enc_opt_str(sort).len() as int + 1, false, "control"@, opt_bool_prim(control), 1 + fld("type"@).len() as int + enc_key("get_room_list"@).len() as int + 1 + fld("os"@).len() as int + enc_opt_str(os).len() as int + 1 + fld("name"@).len() as int + enc_opt_str(name).len() as int + 1 + fld("version"@).len() as int + enc_opt_str(version).len() as int + 1 + fld("server"@).len() as int + enc_opt_str(server).len() as int + 1 + fld("sort"@).len() as int + enc_opt_str(sort).len() as int + 1 + fld("control"@).len() as int + enc_opt_bool(control).len() as int);
    lemma_rt_get_room_list_tail7(os, name, version, server, sort, control, page, per_page);
    lemma_comma_then(t, 1 + fld("type"@).len() as int + enc_key("get_room_list"@).len() as int + 1 + fld("os"@).len() as int + enc_opt_str(os).len() as int + 1 + fld("name"@).len() as int + enc_opt_str(name).len() as int + 1 + fld("version"@).len() as int + enc_opt_str(version).len() as int + 1 + fld("server"@).len() as int + enc_opt_str(server).len() as int + 1 + fld("sort"@).len() as int + enc_opt_str(sort).len() as int + 1 + fld("control"@).len() as int + enc_opt_bool(control).len() as int);
    assert(grl_sfx6(os, name, version, server, sort, control, page, per_page) == seq![MemberV { key: "control"@, val: opt_bool_prim(control) }].add(grl_sfx7(os, name, version, server, sort, control, page, per_page)));
    assert(spec_members(t, 1 + fld("type"@).len() as int + enc_key("get_room_list"@).len() as int + 1 + fld("os"@).len() as int + enc_opt_str(os).len() as int + 1 + fld("name"@).len() as int + enc_opt_str(name).len() as int + 1 + fld("version"@).len() as int + enc_opt_str(version).len() as int + 1 + fld("server"@).len() as int + enc_opt_str(server).len() as int + 1 + fld("sort"@).len() as int + enc_opt_str(sort).len() as int + 1, false) == Some((grl_sfx6(os, name, version, server, sort, control, page, per_page), 1 + fld("type"@).len() as int + enc_key("get_room_list"@).len() as int + 1 + fld("os"@).len() as int + enc_opt_str(os).len() as int + 1 + fld("name"@).len() as int + enc_opt_str(name).len() as int + 1 + fld("version"@).len() as int + enc_opt_str(version).len() as int + 1 + fld("server"@).len() as int + enc_opt_str(server).len() as int + 1 + fld("sort"@).len() as int + enc_opt_str(sort).len() as int + 1 + fld("control"@).len() as int + enc_opt_bool(control).len() as int + 1 + fld("page"@).len() as int + enc_opt_usize(page).len() as int + 1 + fld("per_page"@).len() as int + enc_opt_usize(per_page).len() as int + 1)));
}

#[verifier::rlimit(100)]
#[verifier::spinoff_prover]
proof fn lemma_rt_get_room_list_tail7(os: Option<Seq<char>>, name: Option<Seq<char>>, version: Option<Seq<char>>, server: Option<Seq<char>>, sort: Option<Seq<char>>, control: Option<bool>, page: Option<usize>, per_page: Option<usize>)
    ensures
        ({
            let t = spec_encode(MsgV::GetRoomList { os, name, version, server, sort, control, page, per_page });
            spec_members(t, 1 + fld("type"@).len() as int + enc_key("get_room_list"@).len() as int + 1 + fld("os"@).len() as int + enc_opt_str(os).len() as int + 1 + fld("name"@).len() as int + enc_opt_str(name).len() as int + 1 + fld("version"@).len() as int + enc_opt_str(version).len() as int + 1 + fld("server"@).len() as int + enc_opt_str(server).len() as int + 1 + fld("sort"@).len() as int + enc_opt_str(sort).len() as int + 1 + fld("control"@).len() as int + enc_opt_bool(control).len() as int + 1, false) == Some((grl_sfx7(os, name, version, server, sort, control, page, per_page), 1 + fld("type"@).len() as int + enc_key("get_room_list"@).len() as int + 1 + fld("os"@).len() as int + enc_opt_str(os).len() as int + 1 + fld("name"@).len() as int + enc_opt_str(name).len() as int + 1 + fld("version"@).len() as int + enc_opt_str(version).len() as int + 1 + fld("server"@).len() as int + enc_opt_str(server).len() as int + 1 + fld("sort"@).len() as int + enc_opt_str(sort).len() as int + 1 + fld("control"@).len() as int + enc_opt_bool(control).len() as int + 1 + fld("page"@).len() as int + enc_opt_usize(page).len() as int + 1 + fld("per_page"@).len() as int + enc_opt_usize(per_page).len() as int + 1))
        }),
{
    reveal_strlit("page");
    lemma_rt_get_room_list_layout0(os, name, version, server, sort, control, page, per_page);
    lemma_rt_get_room_list_layout5(os, name, version, server, sort, control, page, per_page);
    lemma_rt_get_room_list_layout6(os, name, version, server, sort, control, page, per_page);
    let m = MsgV::GetRoomList { os, name, version, server, sort, control, page, per_page };
    let t = spec_encode(m);
    assert(plain_seq("page"@));
    match page {
        Some(nv) => {
            assert(dec_digits(nv as u64 as nat) == dec_digits(nv as nat));
            lemma_value_num(t, 1 + fld("type"@).len() as int + enc_key("get_room_list"@).len() as int + 1 + fld("os"@).len() as int + enc_opt_str(os).len() as int + 1 + fld("name"@).len() as int + enc_opt_str(name).len() as int + 1 + fld("version"@).len() as int + enc_opt_str(version).len() as int + 1 + fld("server"@).len() as int + enc_opt_str(server).len() as int + 1 + fld("sort"@).len() as int + enc_opt_str(sort).len() as int + 1 + fld("control"@).len() as int + enc_opt_bool(control).len() as int + 1 + fld("page"@).len() as int, nv as u64);
        },
        None => { lemma_value_null(t, 1 + fld("type"@).len() as int + enc_key("get_room_list"@).len() as int + 1 + fld("os"@).len() as int + enc_opt_str(os).len() as int + 1 + fld("name"@).len() as int + enc_opt_str(name).len() as int + 1 + fld("version"@).len() as int + enc_opt_str(version).len() as int + 1 + fld("server"@).len() as int + enc_opt_str(server).len() as int + 1 + fld("sort"@).len() as int + enc_opt_str(sort).len() as int + 1 + fld("control"@).len() as int + enc_opt_bool(control).len() as int + 1 + fld("page"@).len() as int); },
    }
    assert(spec_value_prim(t, 1 + fld("type"@).len() as int + enc_key("get_room_list"@).len() as int + 1 + fld("os"@).len() as int + enc_opt_str(os).len() as int + 1 + fld("name"@).len() as int + enc_opt_str(name).len() as int + 1 + fld("version"@).len() as int + enc_opt_str(version).len() as int + 1 + fld("server"@).len() as int + enc_opt_str(server).len() as int + 1 + fld("sort"@).len() as int + enc_opt_str(sort).len() as int + 1 + fld("control"@).len() as int + enc_opt_bool(control).len() as int + 1 + fld("page"@).len() as int) == Some((opt_usize_prim(page), 1 + fld("type"@).len() as int + enc_key("get_room_list"@).len() as int + 1 + fld("os"@).len() as int + enc_opt_str(os).len() as int + 1 + fld("name"@).len() as int + enc_opt_str(name).len() as int + 1 + fld("version"@).len() as int + enc_opt_str(version).len() as int + 1 + fld("server"@).len() as int + enc_opt_str(server).len() as int + 1 + fld("sort"@).len() as int + enc_opt_str(sort).len() as int + 1 + fld("control"@).len() as int + enc_opt_bool(control).len() as int + 1 + fld("page"@).len() as int + enc_opt_usize(page).len() as int)));
    lemma_member(t, 1 + fld("type"@).len() as int + enc_key("get_room_list"@).len() as int + 1 + fld("os"@).len() as int + enc_opt_str(os).len() as int + 1 + fld("name"@).len() as int + enc_opt_str(name).len() as int + 1 + fld("version"@).len() as int + enc_opt_str(version).len() as int + 1 + fld("server"@).len() as int + enc_opt_str(server).len() as int + 1 + fld("sort"@).len() as int + enc_opt_str(sort).len() as int + 1 + fld("control"@).len() as int + enc_opt_bool(control).len() as int + 1, false, "page"@, opt_usize_prim(page), 1 + fld("type"@).len() as int + enc_key("get_room_list"@).len() as int + 1 + fld("os"@).len() as int + enc_opt_str(os).len() as int + 1 + fld("name"@).len() as int + enc_opt_str(name).len() as int + 1 + fld("version"@).len() as int + enc_opt_str(version).len() as int + 1 + fld("server"@).len() as int + enc_opt_str(server).len() as int + 1 + fld("sort"@).len() as int + enc_opt_str(sort).len() as int + 1 + fld("control"@).len() as int + enc_opt_bool(control).len() as int + 1 + fld("page"@).len() as int + enc_opt_usize(page).len() as int);
    lemma_rt_get_room_list_tail8(os, name, version, server, sort, control, page, per_page);
    lemma_comma_then(t, 1 + fld("type"@).len() as int + enc_key("get_room_list"@).len() as int + 1 + fld("os"@).len() as int + enc_opt_str(os).len() as int + 1 + fld("name"@).len() as int + enc_opt_str(name).len() as int + 1 + fld("version"@).len() as int + enc_opt_str(version).len() as int + 1 + fld("server"@).len() as int + enc_opt_str(server).len() as int + 1 + fld("sort"@).len() as int + enc_opt_str(sort).len() as int + 1 + fld("control"@).len() as int + enc_opt_bool(control).len() as int + 1 + fld("page"@).len() as int + enc_opt_usize(page).len() as int);
    assert(grl_sfx7(os, name, version, server, sort, control, page, per_page) == seq![MemberV { key: "page"@, val: opt_usize_prim(page) }].add(grl_sfx8(os, name, version, server, sort, control, page, per_page)));
    assert(spec_members(t, 1 + fld("type"@).len() as int + enc_key("get_room_list"@).len() as int + 1 + fld("os"@).len() as int + enc_opt_str(os).len() as int + 1 + fld("name"@).len() as int + enc_opt_str(name).len() as int + 1 + fld("version"@).len() as int + enc_opt_str(version).len() as int + 1 + fld("server"@).len() as int + enc_opt_str(server).len() as int + 1 + fld("sort"@).len() as int + enc_opt_str(sort).len() as int + 1 + fld("control"@).len() as int + enc_opt_bool(control).len() as int + 1, false) == Some((grl_sfx7(os, name, version, server, sort, control, page, per_page), 1 + fld("type"@).len() as int + enc_key("get_room_list"@).len() as int + 1 + fld("os"@).len() as int + enc_opt_str(os).len() as int + 1 + fld("name"@).len() as int + enc_opt_str(name).len() as int + 1 + fld("version"@).len() as int + enc_opt_str(version).len() as int + 1 + fld("server"@).len() as int + enc_opt_str(server).len() as int + 1 + fld("sort"@).len() as int + enc_opt_str(sort).len() as int + 1 + fld("control"@).len() as int + enc_opt_bool(control).len() as int + 1 + fld("page"@).len() as int + enc_opt_usize(page).len() as int + 1 + fld("per_page"@).len() as int + enc_opt_usize(per_page).len() as int + 1)));
}

#[verifier::rlimit(100)]
#[verifier::spinoff_prover]
proof fn lemma_rt_get_room_list_tail8(os: Option<Seq<char>>, name: Option<Seq<char>>, version: Option<Seq<char>>, server: Option<Seq<char>>, sort: Option<Seq<char>>, control: Option<bool>, page: Option<usize>, per_page: Option<usize>)
    ensures
        ({
            let t = spec_encode(MsgV::GetRoomList { os, name, version, server, sort, control, page, per_page });
            spec_members(t, 1 + fld("type"@).len() as int + enc_key("get_room_list"@).len() as int + 1 + fld("os"@).len() as int + enc_opt_str(os).len() as int + 1 + fld("name"@).len() as int + enc_opt_str(name).len() as int + 1 + fld("version"@).len() as int + enc_opt_str(version).len() as int + 1 + fld("server"@).len() as int + enc_opt_str(server).len() as int + 1 + fld("sort"@).len() as int + enc_opt_str(sort).len() as int + 1 + fld("control"@).len() as int + enc_opt_bool(control).len() as int + 1 + fld("page"@).len() as int + enc_opt_usize(page).len() as int + 1, false) == Some((grl_sfx8(os, name, version, server, sort, control, page, per_page), 1 + fld("type"@).len() as int + enc_key("get_room_list"@).len() as int + 1 + fld("os"@).len() as int + enc_opt_str(os).len() as int + 1 + fld("name"@).len() as int + enc_opt_str(name).len() as int + 1 + fld("version"@).len() as int + enc_opt_str(version).len() as int + 1 + fld("server"@).len() as int + enc_opt_str(server).len() as int + 1 + fld("sort"@).len() as int + enc_opt_str(sort).len() as int + 1 + fld("control"@).len() as int + enc_opt_bool(control).len() as int + 1 + fld("page"@).len() as int + enc_opt_usize(page).len() as int + 1 + fld("per_page"@).len() as int + enc_opt_usize(per_page).len() as int + 1))
        }),
{
    reveal_strlit("per_page");
    lemma_rt_get_room_list_layout0(os, name, version, server, sort, control, page, per_page);
    lemma_rt_get_room_list_layout6(os, name, version, server, sort, control, page, per_page);
    lemma_rt_get_room_list_layout7(os, name, version, server, sort, control, page, per_page);
    let m = MsgV::GetRoomList { os, name, version, server, sort, control, page, per_page };
    let t = spec_encode(m);
    assert(plain_seq("per_page"@));
    match per_page {
        Some(nv) => {
            assert(dec_digits(nv as u64 as nat) == dec_digits(nv as nat));
            lemma_value_num(t, 1 + fld("type"@).len() as int + enc_key("get_room_list"@).len() as int + 1 + fld("os"@).len() as int + enc_opt_str(os).len() as int + 1 + fld("name"@).len() as int + enc_opt_str(name).len() as int + 1 + fld("version"@).len() as int + enc_opt_str(version).len() as int + 1 + fld("server"@).len() as int + enc_opt_str(server).len() as int + 1 + fld("sort"@).len() as int + enc_opt_str(sort).len() as int + 1 + fld("control"@).len() as int + enc_opt_bool(control).len() as int + 1 + fld("page"@).len() as int + enc_opt_usize(page).len() as int + 1 + fld("per_page"@).len() as int, nv as u64);
        },
        None => { lemma_value_null(t, 1 + fld("type"@).len() as int + enc_key("get_room_list"@).len() as int + 1 + fld("os"@).len() as int + enc_opt_str(os).len() as int + 1 + fld("name"@).len() as int + enc_opt_str(name).len() as int + 1 + fld("version"@).len() as int + enc_opt_str(version).len() as int + 1 + fld("server"@).len() as int + enc_opt_str(server).len() as int + 1 + fld("sort"@).len() as int + enc_opt_str(sort).len() as int + 1 + fld("control"@).len() as int + enc_opt_bool(control).len() as int + 1 + fld("page"@).len() as int + enc_opt_usize(page).len() as int + 1 + fld("per_page"@).len() as int); },
    }
    assert(spec_value_prim(t, 1 + fld("type"@).len() as int + enc_key("get_room_list"@).len() as int + 1 + fld("os"@).len() as int + enc_opt_str(os).len() as int + 1 + fld("name"@).len() as int + enc_opt_str(name).len() as int + 1 + fld("version"@).len() as int + enc_opt_str(version).len() as int + 1 + fld("server"@).len() as int + enc_opt_str(server).len() as int + 1 + fld("sort"@).len() as int + enc_opt_str(sort).len() as int + 1 + fld("control"@).len() as int + enc_opt_bool(control).len() as int + 1 + fld("page"@).len() as int + enc_opt_usize(page).len() as int + 1 + fld("per_page"@).len() as int) == Some((opt_usize_prim(per_page), 1 + fld("type"@).len() as int + enc_key("get_room_list"@).len() as int + 1 + fld("os"@).len() as int + enc_opt_str(os).len() as int + 1 + fld("name"@).len() as int + enc_opt_str(name).len() as int + 1 + fld("version"@).len() as int + enc_opt_str(version).len() as int + 1 + fld("server"@).len() as int + enc_opt_str(server).len() as int + 1 + fld("sort"@).len() as int + enc_opt_str(sort).len() as int + 1 + fld("control"@).len() as int + enc_opt_bool(control).len() as int + 1 + fld("page"@).len() as int + enc_opt_usize(page).len() as int + 1 + fld("per_page"@).len() as int + enc_opt_usize(per_page).len() as int)));
    lemma_member(t, 1 + fld("type"@).len() as int + enc_key("get_room_list"@).len() as int + 1 + fld("os"@).len() as int + enc_opt_str(os).len() as int + 1 + fld("name"@).len() as int + enc_opt_str(name).len() as int + 1 + fld("version"@).len() as int + enc_opt_str(version).len() as int + 1 + fld("server"@).len() as int + enc_opt_str(server).len() as int + 1 + fld("sort"@).len() as int + enc_opt_str(sort).len() as int + 1 + fld("control"@).len() as int + enc_opt_bool(control).len() as int + 1 + fld("page"@).len() as int + enc_opt_usize(page).len() as int + 1, false, "per_page"@, opt_usize_prim(per_page), 1 + fld("type"@).len() as int + enc_key("get_room_list"@).len() as int + 1 + fld("os"@).len() as int + enc_opt_str(os).len() as int + 1 + fld("name"@).len() as int + enc_opt_str(name).len() as int + 1 + fld("version"@).len() as int + enc_opt_str(version).len() as int + 1 + fld("server"@).len() as int + enc_opt_str(server).len() as int + 1 + fld("sort"@).len() as int + enc_opt_str(sort).len() as int + 1 + fld("control"@).len() as int + enc_opt_bool(control).len() as int + 1 + fld("page"@).len() as int + enc_opt_usize(page).len() as int + 1 + fld("per_page"@).len() as int + enc_opt_usize(per_page).len() as int);
    lemma_close(t, 1 + fld("type"@).len() as int + enc_key("get_room_list"@).len() as int + 1 + fld("os"@).len() as int + enc_opt_str(os).len() as int + 1 + fld("name"@).len() as int + enc_opt_str(name).len() as int + 1 + fld("version"@).len() as int + enc_opt_str(version).len() as int + 1 + fld("server"@).len() as int + enc_opt_str(server).len() as int + 1 + fld("sort"@).len() as int + enc_opt_str(sort).len() as int + 1 + fld("control"@).len() as int + enc_opt_bool(control).len() as int + 1 + fld("page"@).len() as int + enc_opt_usize(page).len() as int + 1 + fld("per_page"@).len() as int + enc_opt_usize(per_page).len() as int);
    assert(grl_sfx8(os, name, version, server, sort, control, page, per_page) == seq![MemberV { key: "per_page"@, val: opt_usize_prim(per_page) }].add(Seq::<MemberV>::empty()));
    assert(spec_members(t, 1 + fld("type"@).len() as int + enc_key("get_room_list"@).len() as int + 1 + fld("os"@).len() as int + enc_opt_str(os).len() as int + 1 + fld("name"@).len() as int + enc_opt_str(name).len() as int + 1 + fld("version"@).len() as int + enc_opt_str(version).len() as int + 1 + fld("server"@).len() as int + enc_opt_str(server).len() as int + 1 + fld("sort"@).len() as int + enc_opt_str(sort).len() as int + 1 + fld("control"@).len() as int + enc_opt_bool(control).len() as int + 1 + fld("page"@).len() as int + enc_opt_usize(page).len() as int + 1, false) == Some((grl_sfx8(os, name, version, server, sort, control, page, per_page), 1 + fld("type"@).len() as int + enc_key("get_room_list"@).len() as int + 1 + fld("os"@).len() as int + enc_opt_str(os).len() as int + 1 + fld("name"@).len() as int + enc_opt_str(name).len() as int + 1 + fld("version"@).len() as int + enc_opt_str(version).len() as int + 1 + fld("server"@).len() as int + enc_opt_str(server).len() as int + 1 + fld("sort"@).len() as int + enc_opt_str(sort).len() as int + 1 + fld("control"@).len() as int + enc_opt_bool(control).len() as int + 1 + fld("page"@).len() as int + enc_opt_usize(page).len() as int + 1 + fld("per_page"@).len() as int + enc_opt_usize(per_page).len() as int + 1)));
}
#[verifier::rlimit(100)]
#[verifier::spinoff_prover]
proof fn lemma_rt_get_room_list_parse(os: Option<Seq<char>>, name: Option<Seq<char>>, version: Option<Seq<char>>, server: Option<Seq<char>>, sort: Option<Seq<char>>, control: Option<bool>, page: Option<usize>, per_page: Option<usize>)
    ensures
        ({
            let t = spec_encode(MsgV::GetRoomList { os, name, version, server, sort, control, page, per_page });
            spec_decode(t) == spec_msg_of_members(t, get_room_list_ms(os, name, version, server, sort, control, page, per_page))
        }),
{
    lemma_rt_get_room_list_layout0(os, name, version, server, sort, control, page, per_page);
    lemma_rt_get_room_list_tail0(os, name, version, server, sort, control, page, per_page);
    let m = MsgV::GetRoomList { os, name, version, server, sort, control, page, per_page };
    let t = spec_encode(m);
    assert(!is_jws(t[0]));
    assert(spec_ws(t, 0) == 0);
    assert(spec_ws(t, t.len() as int) == t.len());
    assert(get_room_list_ms(os, name, version, server, sort, control, page, per_page) == grl_sfx0(os, name, version, server, sort, control, page, per_page));
    assert(spec_decode(t) == spec_msg_of_members(t, get_room_list_ms(os, name, version, server, sort, control, page, per_page)));
}

#[verifier::rlimit(100)]
#[verifier::spinoff_prover]
proof fn lemma_rt_get_room_list(os: Option<Seq<char>>, name: Option<Seq<char>>, version: Option<Seq<char>>, server: Option<Seq<char>>, sort: Option<Seq<char>>, control: Option<bool>, page: Option<usize>, per_page: Option<usize>)
    ensures
        spec_decode(spec_encode(MsgV::GetRoomList { os, name, version, server, sort, control, page, per_page })) == Some(MsgV::GetRoomList { os, name, version, server, sort, control, page, per_page }),
{
    reveal_strlit("answer");
    reveal_strlit("control");
    reveal_strlit("get_room_list");
    reveal_strlit("ice");
    reveal_strlit("ice_servers");
    reveal_strlit("ice_servers_response");
    reveal_strlit("join");
    reveal_strlit("join_declined");
    reveal_strlit("keep_alive");
    reveal_strlit("leave");
    reveal_strlit("name");
    reveal_strlit("offer");
    reveal_strlit("os");
    reveal_strlit("page");
    reveal_strlit("per_page");
    reveal_strlit("server");
    reveal_strlit("server_closed");
    reveal_strlit("sort");
    reveal_strlit("start");
    reveal_strlit("start_response");
    reveal_strlit("type");
    reveal_strlit("version");
    lemma_rt_get_room_list_parse(os, name, version, server, sort, control, page, per_page);
    let m = MsgV::GetRoomList { os, name, version, server, sort, control, page, per_page };
    let t = spec_encode(m);
    let ms = get_room_list_ms(os, name, version, server, sort, control, page, per_page);
    let sfx1 = seq![MemberV { key: "os"@, val: opt_str_prim(os) }].add(seq![MemberV { key: "name"@, val: opt_str_prim(name) }].add(seq![MemberV { key: "version"@, val: opt_str_prim(version) }].add(seq![MemberV { key: "server"@, val: opt_str_prim(server) }].add(seq![MemberV { key: "sort"@, val: opt_str_prim(sort) }].add(seq![MemberV { key: "control"@, val: opt_bool_prim(control) }].add(seq![MemberV { key: "page"@, val: opt_usize_prim(page) }].add(seq![MemberV { key: "per_page"@, val: opt_usize_prim(per_page) }].add(Seq::<MemberV>::empty()))))))));
    let sfx2 = seq![MemberV { key: "name"@, val: opt_str_prim(name) }].add(seq![MemberV { key: "version"@, val: opt_str_prim(version) }].add(seq![MemberV { key: "server"@, val: opt_str_prim(server) }].add(seq![MemberV { key: "sort"@, val: opt_str_prim(sort) }].add(seq![MemberV { key: "control"@, val: opt_bool_prim(control) }].add(seq![MemberV { key: "page"@, val: opt_usize_prim(page) }].add(seq![MemberV { key: "per_page"@, val: opt_usize_prim(per_page) }].add(Seq::<MemberV>::empty())))))));
    let sfx3 = seq![MemberV { key: "version"@, val: opt_str_prim(version) }].add(seq![MemberV { key: "server"@, val: opt_str_prim(server) }].add(seq![MemberV { key: "sort"@, val: opt_str_prim(sort) }].add(seq![MemberV { key: "control"@, val: opt_bool_prim(control) }].add(seq![MemberV { key: "page"@, val: opt_usize_prim(page) }].add(seq![MemberV { key: "per_page"@, val: opt_usize_prim(per_page) }].add(Seq::<MemberV>::empty()))))));
    let sfx4 = seq![MemberV { key: "server"@, val: opt_str_prim(server) }].add(seq![MemberV { key: "sort"@, val: opt_str_prim(sort) }].add(seq![MemberV { key: "control"@, val: opt_bool_prim(control) }].add(seq![MemberV { key: "page"@, val: opt_usize_prim(page) }].add(seq![MemberV { key: "per_page"@, val: opt_usize_prim(per_page) }].add(Seq::<MemberV>::empty())))));
    let sfx5 = seq![MemberV { key: "sort"@, val: opt_str_prim(sort) }].add(seq![MemberV { key: "control"@, val: opt_bool_prim(control) }].add(seq![MemberV { key: "page"@, val: opt_usize_prim(page) }].add(seq![MemberV { key: "per_page"@, val: opt_usize_prim(per_page) }].add(Seq::<MemberV>::empty()))));
    let sfx6 = seq![MemberV { key: "control"@, val: opt_bool_prim(control) }].add(seq![MemberV { key: "page"@, val: opt_usize_prim(page) }].add(seq![MemberV { key: "per_page"@, val: opt_usize_prim(per_page) }].add(Seq::<MemberV>::empty())));
    let sfx7 = seq![MemberV { key: "page"@, val: opt_usize_prim(page) }].add(seq![MemberV { key: "per_page"@, val: opt_usize_prim(per_page) }].add(Seq::<MemberV>::empty()));
    let sfx8 = seq![MemberV { key: "per_page"@, val: opt_usize_prim(per_page) }].add(Seq::<MemberV>::empty());
    assert(ms.drop_first() =~= sfx1);
    assert(sfx1.drop_first() =~= sfx2);
    assert(sfx2.drop_first() =~= sfx3);
    assert(sfx3.drop_first() =~= sfx4);
    assert(sfx4.drop_first() =~= sfx5);
    assert(sfx5.drop_first() =~= sfx6);
    assert(sfx6.drop_first() =~= sfx7);
    assert(sfx7.drop_first() =~= sfx8);
    assert("control"@ != "page"@) by {
        assert("control"@.len() != "page"@.len());
    }
    assert("control"@ != "per_page"@) by {
        assert("control"@.len() != "per_page"@.len());
    }
    assert("name"@ != "control"@) by {
        assert("name"@.len() != "control"@.len());
    }
    assert("name"@ != "page"@) by {
        assert("name"@[0] != "page"@[0]);
    }
    assert("name"@ != "per_page"@) by {
        assert("name"@.len() != "per_page"@.len());
    }
    assert("name"@ != "server"@) by {
        assert("name"@.len() != "server"@.len());
    }
    assert("name"@ != "sort"@) by {
        assert("name"@[0] != "sort"@[0]);
    }
    assert("name"@ != "version"@) by {
        assert("name"@.len() != "version"@.len());
    }
    assert("os"@ != "control"@) by {
        assert("os"@.len() != "control"@.len());
    }
    assert("os"@ != "name"@) by {
        assert("os"@.len() != "name"@.len());
    }
    assert("os"@ != "page"@) by {
        assert("os"@.len() != "page"@.len());
    }
    assert("os"@ != "per_page"@) by {
        assert("os"@.len() != "per_page"@.len());
    }
    assert("os"@ != "server"@) by {
        assert("os"@.len() != "server"@.len());
    }
    assert("os"@ != "sort"@) by {
        assert("os"@.len() != "sort"@.len());
    }
    assert("os"@ != "version"@) by {
        assert("os"@.len() != "version"@.len());
    }
    assert("page"@ != "per_page"@) by {
        assert("page"@.len() != "per_page"@.len());
    }
    assert("server"@ != "control"@) by {
        assert("server"@.len() != "control"@.len());
    }
    assert("server"@ != "page"@) by {
        assert("server"@.len() != "page"@.len());
    }
    assert("server"@ != "per_page"@) by {
        assert("server"@.len() != "per_page"@.len());
    }
    assert("server"@ != "sort"@) by {
        assert("server"@.len() != "sort"@.len());
    }
    assert("sort"@ != "control"@) by {
        assert("sort"@.len() != "control"@.len());
    }
    assert("sort"@ != "page"@) by {
        assert("sort"@[0] != "page"@[0]);
    }
    assert("sort"@ != "per_page"@) by {
        assert("sort"@.len() != "per_page"@.len());
    }
    assert("type"@ != "control"@) by {
        assert("type"@.len() != "control"@.len());
    }
    assert("type"@ != "name"@) by {
        assert("type"@[0] != "name"@[0]);
    }
    assert("type"@ != "os"@) by {
        assert("type"@.len() != "os"@.len());
    }
    assert("type"@ != "page"@) by {
        assert("type"@[0] != "page"@[0]);
    }
    assert("type"@ != "per_page"@) by {
        assert("type"@.len() != "per_page"@.len());
    }
    assert("type"@ != "server"@) by {
        assert("type"@.len() != "server"@.len());
    }
    assert("type"@ != "sort"@) by {
        assert("type"@[0] != "sort"@[0]);
    }
    assert("type"@ != "version"@) by {
        assert("type"@.len() != "version"@.len());
    }
    assert("version"@ != "control"@) by {
        assert("version"@[0] != "control"@[0]);
    }
    assert("version"@ != "page"@) by {
        assert("version"@.len() != "page"@.len());
    }
    assert("version"@ != "per_page"@) by {
        assert("version"@.len() != "per_page"@.len());
    }
    assert("version"@ != "server"@) by {
        assert("version"@.len() != "server"@.len());
    }
    assert("version"@ != "sort"@) by {
        assert("version"@.len() != "sort"@.len());
    }
    assert("get_room_list"@ != "offer"@) by {
        assert("get_room_list"@.len() != "offer"@.len());
    }
    assert("get_room_list"@ != "answer"@) by {
        assert("get_room_list"@.len() != "answer"@.len());
    }
    assert("get_room_list"@ != "ice"@) by {
        assert("get_room_list"@.len() != "ice"@.len());
    }
    assert("get_room_list"@ != "join"@) by {
        assert("get_room_list"@.len() != "join"@.len());
    }
    assert("get_room_list"@ != "join_declined"@) by {
        assert("get_room_list"@[0] != "join_declined"@[0]);
    }
    assert("get_room_list"@ != "start"@) by {
        assert("get_room_list"@.len() != "start"@.len());
    }
    assert("get_room_list"@ != "start_response"@) by {
        assert("get_room_list"@.len() != "start_response"@.len());
    }
    assert("get_room_list"@ != "leave"@) by {
        assert("get_room_list"@.len() != "leave"@.len());
    }
    assert("get_room_list"@ != "server_closed"@) by {
        assert("get_room_list"@[0] != "server_closed"@[0]);
    }
    assert("get_room_list"@ != "keep_alive"@) by {
        assert("get_room_list"@.len() != "keep_alive"@.len());
    }
    assert("get_room_list"@ != "ice_servers"@) by {
        assert("get_room_list"@.len() != "ice_servers"@.len());
    }
    assert("get_room_list"@ != "ice_servers_response"@) by {
        assert("get_room_list"@.len() != "ice_servers_response"@.len());
    }
    assert(field_of(ms, "type"@) == Some(PrimV::Str("get_room_list"@))) by {
        assert(ms[0] == MemberV { key: "type"@, val: PrimV::Str("get_room_list"@) });
    }
    assert(field_of(ms, "os"@) == field_of(sfx1, "os"@)) by {
        assert(ms[0].key != "os"@);
    }
    assert(field_of(sfx1, "os"@) == Some(opt_str_prim(os))) by {
        assert(sfx1[0] == MemberV { key: "os"@, val: opt_str_prim(os) });
    }
    assert(field_of(ms, "name"@) == field_of(sfx1, "name"@)) by {
        assert(ms[0].key != "name"@);
    }
    assert(field_of(sfx1, "name"@) == field_of(sfx2, "name"@)) by {
        assert(sfx1[0].key != "name"@);
    }
    assert(field_of(sfx2, "name"@) == Some(opt_str_prim(name))) by {
        assert(sfx2[0] == MemberV { key: "name"@, val: opt_str_prim(name) });
    }
    assert(field_of(ms, "version"@) == field_of(sfx1, "version"@)) by {
        assert(ms[0].key != "version"@);
    }
    assert(field_of(sfx1, "version"@) == field_of(sfx2, "version"@)) by {
        assert(sfx1[0].key != "version"@);
    }
    assert(field_of(sfx2, "version"@) == field_of(sfx3, "version"@)) by {
        assert(sfx2[0].key != "version"@);
    }
    assert(field_of(sfx3, "version"@) == Some(opt_str_prim(version))) by {
        assert(sfx3[0] == MemberV { key: "version"@, val: opt_str_prim(version) });
    }
    assert(field_of(ms, "server"@) == field_of(sfx1, "server"@)) by {
        assert(ms[0].key != "server"@);
    }
    assert(field_of(sfx1, "server"@) == field_of(sfx2, "server"@)) by {
        assert(sfx1[0].key != "server"@);
    }
    assert(field_of(sfx2, "server"@) == field_of(sfx3, "server"@)) by {
        assert(sfx2[0].key != "server"@);
    }
    assert(field_of(sfx3, "server"@) == field_of(sfx4, "server"@)) by {
        assert(sfx3[0].key != "server"@);
    }
    assert(field_of(sfx4, "server"@) == Some(opt_str_prim(server))) by {
        assert(sfx4[0] == MemberV { key: "server"@, val: opt_str_prim(server) });
    }
    assert(field_of(ms, "sort"@) == field_of(sfx1, "sort"@)) by {
        assert(ms[0].key != "sort"@);
    }
    assert(field_of(sfx1, "sort"@) == field_of(sfx2, "sort"@)) by {
        assert(sfx1[0].key != "sort"@);
    }
    assert(field_of(sfx2, "sort"@) == field_of(sfx3, "sort"@)) by {
        assert(sfx2[0].key != "sort"@);
    }
    assert(field_of(sfx3, "sort"@) == field_of(sfx4, "sort"@)) by {
        assert(sfx3[0].key != "sort"@);
    }
    assert(field_of(sfx4, "sort"@) == field_of(sfx5, "sort"@)) by {
        assert(sfx4[0].key != "sort"@);
    }
    assert(field_of(sfx5, "sort"@) == Some(opt_str_prim(sort))) by {
        assert(sfx5[0] == MemberV { key: "sort"@, val: opt_str_prim(sort) });
    }
    assert(field_of(ms, "control"@) == field_of(sfx1, "control"@)) by {
        assert(ms[0].key != "control"@);
    }
    assert(field_of(sfx1, "control"@) == field_of(sfx2, "control"@)) by {
        assert(sfx1[0].key != "control"@);
    }
    assert(field_of(sfx2, "control"@) == field_of(sfx3, "control"@)) by {
        assert(sfx2[0].key != "control"@);
    }
    assert(field_of(sfx3, "control"@) == field_of(sfx4, "control"@)) by {
        assert(sfx3[0].key != "control"@);
    }
    assert(field_of(sfx4, "control"@) == field_of(sfx5, "control"@)) by {
        assert(sfx4[0].key != "control"@);
    }
    assert(field_of(sfx5, "control"@) == field_of(sfx6, "control"@)) by {
        assert(sfx5[0].key != "control"@);
    }
    assert(field_of(sfx6, "control"@) == Some(opt_bool_prim(control))) by {
        assert(sfx6[0] == MemberV { key: "control"@, val: opt_bool_prim(control) });
    }
    assert(field_of(ms, "page"@) == field_of(sfx1, "page"@)) by {
        assert(ms[0].key != "page"@);
    }
    assert(field_of(sfx1, "page"@) == field_of(sfx2, "page"@)) by {
        assert(sfx1[0].key != "page"@);
    }
    assert(field_of(sfx2, "page"@) == field_of(sfx3, "page"@)) by {
        assert(sfx2[0].key != "page"@);
    }
    assert(field_of(sfx3, "page"@) == field_of(sfx4, "page"@)) by {
        assert(sfx3[0].key != "page"@);
    }
    assert(field_of(sfx4, "page"@) == field_of(sfx5, "page"@)) by {
        assert(sfx4[0].key != "page"@);
    }
    assert(field_of(sfx5, "page"@) == field_of(sfx6, "page"@)) by {
        assert(sfx5[0].key != "page"@);
    }
    assert(field_of(sfx6, "page"@) == field_of(sfx7, "page"@)) by {
        assert(sfx6[0].key != "page"@);
    }
    assert(field_of(sfx7, "page"@) == Some(opt_usize_prim(page))) by {
        assert(sfx7[0] == MemberV { key: "page"@, val: opt_usize_prim(page) });
    }
    assert(field_of(ms, "per_page"@) == field_of(sfx1, "per_page"@)) by {
        assert(ms[0].key != "per_page"@);
    }
    assert(field_of(sfx1, "per_page"@) == field_of(sfx2, "per_page"@)) by {
        assert(sfx1[0].key != "per_page"@);
    }
    assert(field_of(sfx2, "per_page"@) == field_of(sfx3, "per_page"@)) by {
        assert(sfx2[0].key != "per_page"@);
    }
    assert(field_of(sfx3, "per_page"@) == field_of(sfx4, "per_page"@)) by {
        assert(sfx3[0].key != "per_page"@);
    }
    assert(field_of(sfx4, "per_page"@) == field_of(sfx5, "per_page"@)) by {
        assert(sfx4[0].key != "per_page"@);
    }
    assert(field_of(sfx5, "per_page"@) == field_of(sfx6, "per_page"@)) by {
        assert(sfx5[0].key != "per_page"@);
    }
    assert(field_of(sfx6, "per_page"@) == field_of(sfx7, "per_page"@)) by {
        assert(sfx6[0].key != "per_page"@);
    }
    assert(field_of(sfx7, "per_page"@) == field_of(sfx8, "per_page"@)) by {
        assert(sfx7[0].key != "per_page"@);
    }
    assert(field_of(sfx8, "per_page"@) == Some(opt_usize_prim(per_page))) by {
        assert(sfx8[0] == MemberV { key: "per_page"@, val: opt_usize_prim(per_page) });
    }
    assert(req_str(ms, "type"@) == Some("get_room_list"@));
    assert(opt_str(ms, "os"@) == Some(os));
    assert(opt_str(ms, "name"@) == Some(name));
    assert(opt_str(ms, "version"@) == Some(version));
    assert(opt_str(ms, "server"@) == Some(server));
    assert(opt_str(ms, "sort"@) == Some(sort));
    assert(opt_bool(ms, "control"@) == Some(control));
    assert(opt_usize(ms, "page"@) == Some(page));
    assert(opt_usize(ms, "per_page"@) == Some(per_page));
    assert(spec_msg_of_members(t, ms) == Some(m));
}

/// The member list of an encoded `subscribe_room_updates` frame.
pub open spec fn subscribe_room_updates_ms() -> Seq<MemberV> {
    seq![MemberV { key: "type"@, val: PrimV::Str("subscribe_room_updates"@) }].add(Seq::<MemberV>::empty())
}

#[verifier::rlimit(100)]
#[verifier::spinoff_prover]
proof fn lemma_rt_subscribe_room_updates_layout0()
    ensures
        ({
            let t = spec_encode(MsgV::SubscribeRoomUpdates);
            &&& t.len() as int == 1 + fld("type"@).len() as int + enc_key("subscribe_room_updates"@).len() as int + 1
            &&& t[0] == '{'
            &&& t.subrange(1, 1 + fld("type"@).len() as int) == fld("type"@)
            &&& t.subrange(1 + fld("type"@).len() as int, 1 + fld("type"@).len() as int + enc_key("subscribe_room_updates"@).len() as int) == enc_key("subscribe_room_updates"@)
        }),
{
    let m = MsgV::SubscribeRoomUpdates;
    let t = spec_encode(m);
    assert(t == seq!['{'].add(fld("type"@)).add(enc_key("subscribe_room_updates"@)).add(seq!['}']));
    assert(t.len() as int == 1 + fld("type"@).len() as int + enc_key("subscribe_room_updates"@).len() as int + 1);
    assert(t[0] == '{');
    assert(t.subrange(1, 1 + fld("type"@).len() as int) =~= fld("type"@));
    assert(t.subrange(1 + fld("type"@).len() as int, 1 + fld("type"@).len() as int + enc_key("subscribe_room_updates"@).len() as int) =~= enc_key("subscribe_room_updates"@));
}

#[verifier::rlimit(100)]
#[verifier::spinoff_prover]
proof fn lemma_rt_subscribe_room_updates_layout1()
    ensures
        ({
            let t = spec_encode(MsgV::SubscribeRoomUpdates);
            &&& t[1 + fld("type"@).len() as int + enc_key("subscribe_room_updates"@).len() as int] == '}'
        }),
{
    let m = MsgV::SubscribeRoomUpdates;
    let t = spec_encode(m);
    assert(t == seq!['{'].add(fld("type"@)).add(enc_key("subscribe_room_updates"@)).add(seq!['}']));
    assert(t[1 + fld("type"@).len() as int + enc_key("subscribe_room_updates"@).len() as int] == '}');
}

#[verifier::rlimit(100)]
#[verifier::spinoff_prover]
proof fn lemma_rt_subscribe_room_updates_tail0()
    ensures
        ({
            let t = spec_encode(MsgV::SubscribeRoomUpdates);
            spec_members(t, 1, true) == Some((seq![MemberV { key: "type"@, val: PrimV::Str("subscribe_room_updates"@) }].add(Seq::<MemberV>::empty()), 1 + fld("type"@).len() as int + enc_key("subscribe_room_updates"@).len() as int + 1))
        }),
{
    reveal_strlit("subscribe_room_updates");
    reveal_strlit("type");
    lemma_rt_subscribe_room_updates_layout0();
    lemma_rt_subscribe_room_updates_layout1();
    let m = MsgV::SubscribeRoomUpdates;
    let t = spec_encode(m);
    assert(plain_seq("type"@));
    assert(plain_seq("subscribe_room_updates"@));
    lemma_value_key(t, 1 + fld("type"@).len() as int, "subscribe_room_updates"@);
    assert(spec_value_prim(t, 1 + fld("type"@).len() as int) == Some((PrimV::Str("subscribe_room_updates"@), 1 + fld("type"@).len() as int + enc_key("subscribe_room_updates"@).len() as int)));
    lemma_member(t, 1, true, "type"@, PrimV::Str("subscribe_room_updates"@), 1 + fld("type"@).len() as int + enc_key("subscribe_room_updates"@).len() as int);
    lemma_close(t, 1 + fld("type"@).len() as int + enc_key("subscribe_room_updates"@).len() as int);
    assert(spec_members(t, 1, true) == Some((seq![MemberV { key: "type"@, val: PrimV::Str("subscribe_room_updates"@) }].add(Seq::<MemberV>::empty()), 1 + fld("type"@).len() as int + enc_key("subscribe_room_updates"@).len() as int + 1)));
}
#[verifier::rlimit(100)]
#[verifier::spinoff_prover]
proof fn lemma_rt_subscribe_room_updates_parse()
    ensures
        ({
            let t = spec_encode(MsgV::SubscribeRoomUpdates);
            spec_decode(t) == spec_msg_of_members(t, subscribe_room_updates_ms())
        }),
{
    lemma_rt_subscribe_room_updates_layout0();
    lemma_rt_subscribe_room_updates_layout1();
    lemma_rt_subscribe_room_updates_tail0();
    let m = MsgV::SubscribeRoomUpdates;
    let t = spec_encode(m);
    assert(!is_jws(t[0]));
    assert(spec_ws(t, 0) == 0);
    assert(spec_ws(t, t.len() as int) == t.len());
    assert(subscribe_room_updates_ms() == seq![MemberV { key: "type"@, val: PrimV::Str("subscribe_room_updates"@) }].add(Seq::<MemberV>::empty()));
    assert(spec_decode(t) == spec_msg_of_members(t, subscribe_room_updates_ms()));
}

#[verifier::rlimit(100)]
#[verifier::spinoff_prover]
proof fn lemma_rt_subscribe_room_updates()
    ensures
        spec_decode(spec_encode(MsgV::SubscribeRoomUpdates)) == Some(MsgV::SubscribeRoomUpdates),
{
    reveal_strlit("answer");
    reveal_strlit("get_room_list");
    reveal_strlit("ice");
    reveal_strlit("ice_servers");
    reveal_strlit("ice_servers_response");
    reveal_strlit("join");
    reveal_strlit("join_declined");
    reveal_strlit("keep_alive");
    reveal_strlit("leave");
    reveal_strlit("offer");
    reveal_strlit("room_list_response");
    reveal_strlit("server_closed");
    reveal_strlit("start");
    reveal_strlit("start_response");
    reveal_strlit("subscribe_room_updates");
    reveal_strlit("type");
    lemma_rt_subscribe_room_updates_parse();
    let m = MsgV::SubscribeRoomUpdates;
    let t = spec_encode(m);
    let ms = subscribe_room_updates_ms();
    assert("subscribe_room_updates"@ != "offer"@) by {
        assert("subscribe_room_updates"@.len() != "offer"@.len());
    }
    assert("subscribe_room_updates"@ != "answer"@) by {
        assert("subscribe_room_updates"@.len() != "answer"@.len());
    }
    assert("subscribe_room_updates"@ != "ice"@) by {
        assert("subscribe_room_updates"@.len() != "ice"@.len());
    }
    assert("subscribe_room_updates"@ != "join"@) by {
        assert("subscribe_room_updates"@.len() != "join"@.len());
    }
    assert("subscribe_room_updates"@ != "join_declined"@) by {
        assert("subscribe_room_updates"@.len() != "join_declined"@.len());
    }
    assert("subscribe_room_updates"@ != "start"@) by {
        assert("subscribe_room_updates"@.len() != "start"@.len());
    }
    assert("subscribe_room_updates"@ != "start_response"@) by {
        assert("subscribe_room_updates"@.len() != "start_response"@.len());
    }
    assert("subscribe_room_updates"@ != "leave"@) by {
        assert("subscribe_room_updates"@.len() != "leave"@.len());
    }
    assert("subscribe_room_updates"@ != "server_closed"@) by {
        assert("subscribe_room_updates"@.len() != "server_closed"@.len());
    }
    assert("subscribe_room_updates"@ != "keep_alive"@) by {
        assert("subscribe_room_updates"@.len() != "keep_alive"@.len());
    }
    assert("subscribe_room_updates"@ != "ice_servers"@) by {
        assert("subscribe_room_updates"@.len() != "ice_servers"@.len());
    }
    assert("subscribe_room_updates"@ != "ice_servers_response"@) by {
        assert("subscribe_room_updates"@.len() != "ice_servers_response"@.len());
    }
    assert("subscribe_room_updates"@ != "get_room_list"@) by {
        assert("subscribe_room_updates"@.len() != "get_room_list"@.len());
    }
    assert("subscribe_room_updates"@ != "room_list_response"@) by {
        assert("subscribe_room_updates"@.len() != "room_list_response"@.len());
    }
    assert(field_of(ms, "type"@) == Some(PrimV::Str("subscribe_room_updates"@))) by {
        assert(ms[0] == MemberV { key: "type"@, val: PrimV::Str("subscribe_room_updates"@) });
    }
    assert(req_str(ms, "type"@) == Some("subscribe_room_updates"@));
    assert(spec_msg_of_members(t, ms) == Some(m));
}

/// The member list of an encoded `unsubscribe_room_updates` frame.
pub open spec fn unsubscribe_room_updates_ms() -> Seq<MemberV> {
    seq![MemberV { key: "type"@, val: PrimV::Str("unsubscribe_room_updates"@) }].add(Seq::<MemberV>::empty())
}

#[verifier::rlimit(100)]
#[verifier::spinoff_prover]
proof fn lemma_rt_unsubscribe_room_updates_layout0()
    ensures
        ({
            let t = spec_encode(MsgV::UnsubscribeRoomUpdates);
            &&& t.len() as int == 1 + fld("type"@).len() as int + enc_key("unsubscribe_room_updates"@).len() as int + 1
            &&& t[0] == '{'
            &&& t.subrange(1, 1 + fld("type"@).len() as int) == fld("type"@)
            &&& t.subrange(1 + fld("type"@).len() as int, 1 + fld("type"@).len() as int + enc_key("unsubscribe_room_updates"@).len() as int) == enc_key("unsubscribe_room_updates"@)
        }),
{
    let m = MsgV::UnsubscribeRoomUpdates;
    let t = spec_encode(m);
    assert(t == seq!['{'].add(fld("type"@)).add(enc_key("unsubscribe_room_updates"@)).add(seq!['}']));
    assert(t.len() as int == 1 + fld("type"@).len() as int + enc_key("unsubscribe_room_updates"@).len() as int + 1);
    assert(t[0] == '{');
    assert(t.subrange(1, 1 + fld("type"@).len() as int) =~= fld("type"@));
    assert(t.subrange(1 + fld("type"@).len() as int, 1 + fld("type"@).len() as int + enc_key("unsubscribe_room_updates"@).len() as int) =~= enc_key("unsubscribe_room_updates"@));
}

#[verifier::rlimit(100)]
#[verifier::spinoff_prover]
proof fn lemma_rt_unsubscribe_room_updates_layout1()
    ensures
        ({
            let t = spec_encode(MsgV::UnsubscribeRoomUpdates);
            &&& t[1 + fld("type"@).len() as int + enc_key("unsubscribe_room_updates"@).len() as int] == '}'
        }),
{
    let m = MsgV::UnsubscribeRoomUpdates;
    let t = spec_encode(m);
    assert(t == seq!['{'].add(fld("type"@)).add(enc_key("unsubscribe_room_updates"@)).add(seq!['}']));
    assert(t[1 + fld("type"@).len() as int + enc_key("unsubscribe_room_updates"@).len() as int] == '}');
}

#[verifier::rlimit(100)]
#[verifier::spinoff_prover]
proof fn lemma_rt_unsubscribe_room_updates_tail0()
    ensures
        ({
            let t = spec_encode(MsgV::UnsubscribeRoomUpdates);
            spec_members(t, 1, true) == Some((seq![MemberV { key: "type"@, val: PrimV::Str("unsubscribe_room_updates"@) }].add(Seq::<MemberV>::empty()), 1 + fld("type"@).len() as int + enc_key("unsubscribe_room_updates"@).len() as int + 1))
        }),
{
    reveal_strlit("type");
    reveal_strlit("unsubscribe_room_updates");
    lemma_rt_unsubscribe_room_updates_layout0();
    lemma_rt_unsubscribe_room_updates_layout1();
    let m = MsgV::UnsubscribeRoomUpdates;
    let t = spec_encode(m);
    assert(plain_seq("type"@));
    assert(plain_seq("unsubscribe_room_updates"@));
    lemma_value_key(t, 1 + fld("type"@).len() as int, "unsubscribe_room_updates"@);
    assert(spec_value_prim(t, 1 + fld("type"@).len() as int) == Some((PrimV::Str("unsubscribe_room_updates"@), 1 + fld("type"@).len() as int + enc_key("unsubscribe_room_updates"@).len() as int)));
    lemma_member(t, 1, true, "type"@, PrimV::Str("unsubscribe_room_updates"@), 1 + fld("type"@).len() as int + enc_key("unsubscribe_room_updates"@).len() as int);
    lemma_close(t, 1 + fld("type"@).len() as int + enc_key("unsubscribe_room_updates"@).len() as int);
    assert(spec_members(t, 1, true) == Some((seq![MemberV { key: "type"@, val: PrimV::Str("unsubscribe_room_updates"@) }].add(Seq::<MemberV>::empty()), 1 + fld("type"@).len() as int + enc_key("unsubscribe_room_updates"@).len() as int + 1)));
}
#[verifier::rlimit(100)]
#[verifier::spinoff_prover]
proof fn lemma_rt_unsubscribe_room_updates_parse()
    ensures
        ({
            let t = spec_encode(MsgV::UnsubscribeRoomUpdates);
            spec_decode(t) == spec_msg_of_members(t, unsubscribe_room_updates_ms())
        }),
{
    lemma_rt_unsubscribe_room_updates_layout0();
    lemma_rt_unsubscribe_room_updates_layout1();
    lemma_rt_unsubscribe_room_updates_tail0();
    let m = MsgV::UnsubscribeRoomUpdates;
    let t = spec_encode(m);
    assert(!is_jws(t[0]));
    assert(spec_ws(t, 0) == 0);
    assert(spec_ws(t, t.len() as int) == t.len());
    assert(unsubscribe_room_updates_ms() == seq![MemberV { key: "type"@, val: PrimV::Str("unsubscribe_room_updates"@) }].add(Seq::<MemberV>::empty()));
    assert(spec_decode(t) == spec_msg_of_members(t, unsubscribe_room_updates_ms()));
}

#[verifier::rlimit(100)]
#[verifier::spinoff_prover]
proof fn lemma_rt_unsubscribe_room_updates()
    ensures
        spec_decode(spec_encode(MsgV::UnsubscribeRoomUpdates)) == Some(MsgV::UnsubscribeRoomUpdates),
{
    reveal_strlit("answer");
    reveal_strlit("get_room_list");
    reveal_strlit("ice");
    reveal_strlit("ice_servers");
    reveal_strlit("ice_servers_response");
    reveal_strlit("join");
    reveal_strlit("join_declined");
    reveal_strlit("keep_alive");
    reveal_strlit("leave");
    reveal_strlit("offer");
    reveal_strlit("room_list_response");
    reveal_strlit("server_closed");
    reveal_strlit("start");
    reveal_strlit("start_response");
    reveal_strlit("subscribe_room_updates");
    reveal_strlit("type");
    reveal_strlit("unsubscribe_room_updates");
    lemma_rt_unsubscribe_room_updates_parse();
    let m = MsgV::UnsubscribeRoomUpdates;
    let t = spec_encode(m);
    let ms = unsubscribe_room_updates_ms();
    assert("unsubscribe_room_updates"@ != "offer"@) by {
        assert("unsubscribe_room_updates"@.len() != "offer"@.len());
    }
    assert("unsubscribe_room_updates"@ != "answer"@) by {
        assert("unsubscribe_room_updates"@.len() != "answer"@.len());
    }
    assert("unsubscribe_room_updates"@ != "ice"@) by {
        assert("unsubscribe_room_updates"@.len() != "ice"@.len());
    }
    assert("unsubscribe_room_updates"@ != "join"@) by {
        assert("unsubscribe_room_updates"@.len() != "join"@.len());
    }
    assert("unsubscribe_room_updates"@ != "join_declined"@) by {
        assert("unsubscribe_room_updates"@.len() != "join_declined"@.len());
    }
    assert("unsubscribe_room_updates"@ != "start"@) by {
        assert("unsubscribe_room_updates"@.len() != "start"@.len());
    }
    assert("unsubscribe_room_updates"@ != "start_response"@) by {
        assert("unsubscribe_room_updates"@.len() != "start_response"@.len());
    }
    assert("unsubscribe_room_updates"@ != "leave"@) by {
        assert("unsubscribe_room_updates"@.len() != "leave"@.len());
    }
    assert("unsubscribe_room_updates"@ != "server_closed"@) by {
        assert("unsubscribe_room_updates"@.len() != "server_closed"@.len());
    }
    assert("unsubscribe_room_updates"@ != "keep_alive"@) by {
        assert("unsubscribe_room_updates"@.len() != "keep_alive"@.len());
    }
    assert("unsubscribe_room_updates"@ != "ice_servers"@) by {
        assert("unsubscribe_room_updates"@.len() != "ice_servers"@.len());
    }
    assert("unsubscribe_room_updates"@ != "ice_servers_response"@) by {
        assert("unsubscribe_room_updates"@.len() != "ice_servers_response"@.len());
    }
    assert("unsubscribe_room_updates"@ != "get_room_list"@) by {
        assert("unsubscribe_room_updates"@.len() != "get_room_list"@.len());
    }
    assert("unsubscribe_room_updates"@ != "room_list_response"@) by {
        assert("unsubscribe_room_updates"@.len() != "room_list_response"@.len());
    }
    assert("unsubscribe_room_updates"@ != "subscribe_room_updates"@) by {
        assert("unsubscribe_room_updates"@.len() != "subscribe_room_updates"@.len());
    }
    assert(field_of(ms, "type"@) == Some(PrimV::Str("unsubscribe_room_updates"@))) by {
        assert(ms[0] == MemberV { key: "type"@, val: PrimV::Str("unsubscribe_room_updates"@) });
    }
    assert(req_str(ms, "type"@) == Some("unsubscribe_room_updates"@));
    assert(spec_msg_of_members(t, ms) == Some(m));
}

/// The member list of an encoded `new_room_notification` frame.
pub open spec fn new_room_notification_ms(room: Seq<char>) -> Seq<MemberV> {
    seq![MemberV { key: "type"@, val: PrimV::Str("new_room_notification"@) }].add(seq![MemberV { key: "room"@, val: PrimV::Str(room) }].add(Seq::<MemberV>::empty()))
}

#[verifier::rlimit(100)]
#[verifier::spinoff_prover]
proof fn lemma_rt_new_room_notification_layout0(room: Seq<char>)
    ensures
        ({
            let t = spec_encode(MsgV::NewRoomNotification { room });
            &&& t.len() as int == 1 + fld("type"@).len() as int + enc_key("new_room_notification"@).len() as int + 1 + fld("room"@).len() as int + enc_str(room).len() as int + 1
            &&& t[0] == '{'
            &&& t.subrange(1, 1 + fld("type"@).len() as int) == fld("type"@)
            &&& t.subrange(1 + fld("type"@).len() as int, 1 + fld("type"@).len() as int + enc_key("new_room_notification"@).len() as int) == enc_key("new_room_notification"@)
        }),
{
    let m = MsgV::NewRoomNotification { room };
    let t = spec_encode(m);
    assert(t == seq!['{'].add(fld("type"@)).add(enc_key("new_room_notification"@)).add(seq![',']).add(fld("room"@)).add(enc_str(room)).add(seq!['}']));
    assert(t.len() as int == 1 + fld("type"@).len() as int + enc_key("new_room_notification"@).len() as int + 1 + fld("room"@).len() as int + enc_str(room).len() as int + 1);
    assert(t[0] == '{');
    assert(t.subrange(1, 1 + fld("type"@).len() as int) =~= fld("type"@));
    assert(t.subrange(1 + fld("type"@).len() as int, 1 + fld("type"@).len() as int + enc_key("new_room_notification"@).len() as int) =~= enc_key("new_room_notification"@));
}

#[verifier::rlimit(100)]
#[verifier::spinoff_prover]
proof fn lemma_rt_new_room_notification_layout1(room: Seq<char>)
    ensures
        ({
            let t = spec_encode(MsgV::NewRoomNotification { room });
            &&& t[1 + fld("type"@).len() as int + enc_key("new_room_notification"@).len() as int] == ','
            &&& t.subrange(1 + fld("type"@).len() as int + enc_key("new_room_notification"@).len() as int + 1, 1 + fld("type"@).len() as int + enc_key("new_room_notification"@).len() as int + 1 + fld("room"@).len() as int) == fld("room"@)
            &&& t.subrange(1 + fld("type"@).len() as int + enc_key("new_room_notification"@).len() as int + 1 + fld("room"@).len() as int, 1 + fld("type"@).len() as int + enc_key("new_room_notification"@).len() as int + 1 + fld("room"@).len() as int + enc_str(room).len() as int) == enc_str(room)
            &&& t[1 + fld("type"@).len() as int + enc_key("new_room_notification"@).len() as int + 1 + fld("room"@).len() as int + enc_str(room).len() as int] == '}'
        }),
{
    let m = MsgV::NewRoomNotification { room };
    let t = spec_encode(m);
    assert(t == seq!['{'].add(fld("type"@)).add(enc_key("new_room_notification"@)).add(seq![',']).add(fld("room"@)).add(enc_str(room)).add(seq!['}']));
    assert(t[1 + fld("type"@).len() as int + enc_key("new_room_notification"@).len() as int] == ',');
    assert(t.subrange(1 + fld("type"@).len() as int + enc_key("new_room_notification"@).len() as int + 1, 1 + fld("type"@).len() as int + enc_key("new_room_notification"@).len() as int + 1 + fld("room"@).len() as int) =~= fld("room"@));
    assert(t.subrange(1 + fld("type"@).len() as int + enc_key("new_room_notification"@).len() as int + 1 + fld("room"@).len() as int, 1 + fld("type"@).len() as int + enc_key("new_room_notification"@).len() as int + 1 + fld("room"@).len() as int + enc_str(room).len() as int) =~= enc_str(room));
    assert(t[1 + fld("type"@).len() as int + enc_key("new_room_notification"@).len() as int + 1 + fld("room"@).len() as int + enc_str(room).len() as int] == '}');
}

#[verifier::rlimit(100)]
#[verifier::spinoff_prover]
proof fn lemma_rt_new_room_notification_tail0(room: Seq<char>)
    ensures
        ({
            let t = spec_encode(MsgV::NewRoomNotification { room });
            spec_members(t, 1, true) == Some((seq![MemberV { key: "type"@, val: PrimV::Str("new_room_notification"@) }].add(seq![MemberV { key: "room"@, val: PrimV::Str(room) }].add(Seq::<MemberV>::empty())), 1 + fld("type"@).len() as int + enc_key("new_room_notification"@).len() as int + 1 + fld("room"@).len() as int + enc_str(room).len() as int + 1))
        }),
{
    reveal_strlit("new_room_notification");
    reveal_strlit("room");
    reveal_strlit("type");
    lemma_rt_new_room_notification_layout0(room);
    lemma_rt_new_room_notification_layout1(room);
    let m = MsgV::NewRoomNotification { room };
    let t = spec_encode(m);
    assert(plain_seq("type"@));
    assert(plain_seq("new_room_notification"@));
    lemma_value_key(t, 1 + fld("type"@).len() as int, "new_room_notification"@);
    assert(spec_value_prim(t, 1 + fld("type"@).len() as int) == Some((PrimV::Str("new_room_notification"@), 1 + fld("type"@).len() as int + enc_key("new_room_notification"@).len() as int)));
    lemma_member(t, 1, true, "type"@, PrimV::Str("new_room_notification"@), 1 + fld("type"@).len() as int + enc_key("new_room_notification"@).len() as int);
    lemma_rt_new_room_notification_tail1(room);
    lemma_comma_then(t, 1 + fld("type"@).len() as int + enc_key("new_room_notification"@).len() as int);
    assert(spec_members(t, 1, true) == Some((seq![MemberV { key: "type"@, val: PrimV::Str("new_room_notification"@) }].add(seq![MemberV { key: "room"@, val: PrimV::Str(room) }].add(Seq::<MemberV>::empty())), 1 + fld("type"@).len() as int + enc_key("new_room_notification"@).len() as int + 1 + fld("room"@).len() as int + enc_str(room).len() as int + 1)));
}

#[verifier::rlimit(100)]
#[verifier::spinoff_prover]
proof fn lemma_rt_new_room_notification_tail1(room: Seq<char>)
    ensures
        ({
            let t = spec_encode(MsgV::NewRoomNotification { room });
            spec_members(t, 1 + fld("type"@).len() as int + enc_key("new_room_notification"@).len() as int + 1, false) == Some((seq![MemberV { key: "room"@, val: PrimV::Str(room) }].add(Seq::<MemberV>::empty()), 1 + fld("type"@).len() as int + enc_key("new_room_notification"@).len() as int + 1 + fld("room"@).len() as int + enc_str(room).len() as int + 1))
        }),
{
    reveal_strlit("new_room_notification");
    reveal_strlit("room");
    reveal_strlit("type");
    lemma_rt_new_room_notification_layout0(room);
    lemma_rt_new_room_notification_layout1(room);
    let m = MsgV::NewRoomNotification { room };
    let t = spec_encode(m);
    assert(plain_seq("room"@));
    lemma_value_str(t, 1 + fld("type"@).len() as int + enc_key("new_room_notification"@).len() as int + 1 + fld("room"@).len() as int, room);
    assert(spec_value_prim(t, 1 + fld("type"@).len() as int + enc_key("new_room_notification"@).len() as int + 1 + fld("room"@).len() as int) == Some((PrimV::Str(room), 1 + fld("type"@).len() as int + enc_key("new_room_notification"@).len() as int + 1 + fld("room"@).len() as int + enc_str(room).len() as int)));
    lemma_member(t, 1 + fld("type"@).len() as int + enc_key("new_room_notification"@).len() as int + 1, false, "room"@, PrimV::Str(room), 1 + fld("type"@).len() as int + enc_key("new_room_notification"@).len() as int + 1 + fld("room"@).len() as int + enc_str(room).len() as int);
    lemma_close(t, 1 + fld("type"@).len() as int + enc_key("new_room_notification"@).len() as int + 1 + fld("room"@).len() as int + enc_str(room).len() as int);
    assert(spec_members(t, 1 + fld("type"@).len() as int + enc_key("new_room_notification"@).len() as int + 1, false) == Some((seq![MemberV { key: "room"@, val: PrimV::Str(room) }].add(Seq::<MemberV>::empty()), 1 + fld("type"@).len() as int + enc_key("new_room_notification"@).len() as int + 1 + fld("room"@).len() as int + enc_str(room).len() as int + 1)));
}
#[verifier::rlimit(100)]
#[verifier::spinoff_prover]
proof fn lemma_rt_new_room_notification_parse(room: Seq<char>)
    ensures
        ({
            let t = spec_encode(MsgV::NewRoomNotification { room });
            spec_decode(t) == spec_msg_of_members(t, new_room_notification_ms(room))
        }),
{
    lemma_rt_new_room_notification_layout0(room);
    lemma_rt_new_room_notification_layout1(room);
    lemma_rt_new_room_notification_tail0(room);
    let m = MsgV::NewRoomNotification { room };
    let t = spec_encode(m);
    assert(!is_jws(t[0]));
    assert(spec_ws(t, 0) == 0);
    assert(spec_ws(t, t.len() as int) == t.len());
    assert(new_room_notification_ms(room) == seq![MemberV { key: "type"@, val: PrimV::Str("new_room_notification"@) }].add(seq![MemberV { key: "room"@, val: PrimV::Str(room) }].add(Seq::<MemberV>::empty())));
    assert(spec_decode(t) == spec_msg_of_members(t, new_room_notification_ms(room)));
}

#[verifier::rlimit(100)]
#[verifier::spinoff_prover]
proof fn lemma_rt_new_room_notification(room: Seq<char>)
    ensures
        spec_decode(spec_encode(MsgV::NewRoomNotification { room })) == Some(MsgV::NewRoomNotification { room }),
{
    reveal_strlit("answer");
    reveal_strlit("get_room_list");
    reveal_strlit("ice");
    reveal_strlit("ice_servers");
    reveal_strlit("ice_servers_response");
    reveal_strlit("join");
    reveal_strlit("join_declined");
    reveal_strlit("keep_alive");
    reveal_strlit("leave");
    reveal_strlit("new_room_notification");
    reveal_strlit("offer");
    reveal_strlit("room");
    reveal_strlit("room_list_response");
    reveal_strlit("server_closed");
    reveal_strlit("start");
    reveal_strlit("start_response");
    reveal_strlit("subscribe_room_updates");
    reveal_strlit("type");
    reveal_strlit("unsubscribe_room_updates");
    lemma_rt_new_room_notification_parse(room);
    let m = MsgV::NewRoomNotification { room };
    let t = spec_encode(m);
    let ms = new_room_notification_ms(room);
    let sfx1 = seq![MemberV { key: "room"@, val: PrimV::Str(room) }].add(Seq::<MemberV>::empty());
    assert(ms.drop_first() =~= sfx1);
    assert("type"@ != "room"@) by {
        assert("type"@[0] != "room"@[0]);
    }
    assert("new_room_notification"@ != "offer"@) by {
        assert("new_room_notification"@.len() != "offer"@.len());
    }
    assert("new_room_notification"@ != "answer"@) by {
        assert("new_room_notification"@.len() != "answer"@.len());
    }
    assert("new_room_notification"@ != "ice"@) by {
        assert("new_room_notification"@.len() != "ice"@.len());
    }
    assert("new_room_notification"@ != "join"@) by {
        assert("new_room_notification"@.len() != "join"@.len());
    }
    assert("new_room_notification"@ != "join_declined"@) by {
        assert("new_room_notification"@.len() != "join_declined"@.len());
    }
    assert("new_room_notification"@ != "start"@) by {
        assert("new_room_notification"@.len() != "start"@.len());
    }
    assert("new_room_notification"@ != "start_response"@) by {
        assert("new_room_notification"@.len() != "start_response"@.len());
    }
    assert("new_room_notification"@ != "leave"@) by {
        assert("new_room_notification"@.len() != "leave"@.len());
    }
    assert("new_room_notification"@ != "server_closed"@) by {
        assert("new_room_notification"@.len() != "server_closed"@.len());
    }
    assert("new_room_notification"@ != "keep_alive"@) by {
        assert("new_room_notification"@.len() != "keep_alive"@.len());
    }
    assert("new_room_notification"@ != "ice_servers"@) by {
        assert("new_room_notification"@.len() != "ice_servers"@.len());
    }
    assert("new_room_notification"@ != "ice_servers_response"@) by {
        assert("new_room_notification"@.len() != "ice_servers_response"@.len());
    }
    assert("new_room_notification"@ != "get_room_list"@) by {
        assert("new_room_notification"@.len() != "get_room_list"@.len());
    }
    assert("new_room_notification"@ != "room_list_response"@) by {
        assert("new_room_notification"@.len() != "room_list_response"@.len());
    }
    assert("new_room_notification"@ != "subscribe_room_updates"@) by {
        assert("new_room_notification"@.len() != "subscribe_room_updates"@.len());
    }
    assert("new_room_notification"@ != "unsubscribe_room_updates"@) by {
        assert("new_room_notification"@.len() != "unsubscribe_room_updates"@.len());
    }
    assert(field_of(ms, "type"@) == Some(PrimV::Str("new_room_notification"@))) by {
        assert(ms[0] == MemberV { key: "type"@, val: PrimV::Str("new_room_notification"@) });
    }
    assert(field_of(ms, "room"@) == field_of(sfx1, "room"@)) by {
        assert(ms[0].key != "room"@);
    }
    assert(field_of(sfx1, "room"@) == Some(PrimV::Str(room))) by {
        assert(sfx1[0] == MemberV { key: "room"@, val: PrimV::Str(room) });
    }
    assert(req_str(ms, "type"@) == Some("new_room_notification"@));
    assert(req_str(ms, "room"@) == Some(room));
    assert(spec_msg_of_members(t, ms) == Some(m));
}

/// The codec round-trip law: decoding an encoded message yields it back,
/// field for field, string contents preserved exactly.  Stated for every
/// flat message; the two aggregate responses (`ice_servers_response`,
/// `room_list_response`) are outside this lemma's reach and are exercised
/// by tests instead.
pub proof fn lemma_encode_decode(m: MsgV)
    requires
        !(m is IceServersResponse),
        !(m is RoomListResponse),
    ensures
        spec_decode(spec_encode(m)) == Some(m),
{
    match m {
        MsgV::Offer { from, to } => {
            lemma_rt_offer(from, to);
        },
        MsgV::Answer { from, to } => {
            lemma_rt_answer(from, to);
        },
        MsgV::Ice { from, to } => {
            lemma_rt_ice(from, to);
        },
        MsgV::Join { from, room } => {
            lemma_rt_join(from, room);
        },
        MsgV::JoinDeclined { to, reason } => {
            lemma_rt_join_declined(to, reason);
        },
        MsgV::Start { room, name, os, version, control } => {
            lemma_rt_start(room, name, os, version, control);
        },
        MsgV::StartResponse { room } => {
            lemma_rt_start_response(room);
        },
        MsgV::Leave { from } => {
            lemma_rt_leave(from);
        },
        MsgV::ServerClosed { to, room } => {
            lemma_rt_server_closed(to, room);
        },
        MsgV::KeepAlive => {
            lemma_rt_keep_alive();
        },
        MsgV::IceServers => {
            lemma_rt_ice_servers();
        },
        MsgV::GetRoomList { os, name, version, server, sort, control, page, per_page } => {
            lemma_rt_get_room_list(os, name, version, server, sort, control, page, per_page);
        },
        MsgV::SubscribeRoomUpdates => {
            lemma_rt_subscribe_room_updates();
        },
        MsgV::UnsubscribeRoomUpdates => {
            lemma_rt_unsubscribe_room_updates();
        },
        MsgV::NewRoomNotification { room } => {
            lemma_rt_new_room_notification(room);
        },
        MsgV::IceServersResponse { .. } => {
            assert(false);
        },
        MsgV::RoomListResponse { .. } => {
            assert(false);
        },
    }
}

} // verus!
