//! Deterministic structured serialization for stored records.
//!
//! A record is flattened into a sequence of string fields; the encoded form
//! concatenates each field as `<decimal length>:<field text>`.  The encoding
//! is stable — the same fields always produce the same text — so identical
//! logical keys always produce identical encoded keys, which duplicate
//! detection in the store depends on.

use vstd::prelude::*;

verus! {

use vstd::arithmetic::div_mod::lemma_fundamental_div_mod;

// ---------------------------------------------------------------------------
// Decimal digits.
// ---------------------------------------------------------------------------

pub open spec fn is_digit_char(c: char) -> bool {
    48 <= c as u32 && c as u32 <= 57
}

/// The digit character for one decimal digit.
pub open spec fn digit_char(d: nat) -> char
    recommends
        d < 10,
{
    ((48 + d) as u8) as char
}

pub open spec fn digit_val(c: char) -> nat
    recommends
        is_digit_char(c),
{
    (c as u32 - 48) as nat
}

/// The decimal numeral of `n`, most significant digit first, no sign, no
/// leading zeros (`0` itself is the single digit `0`).
pub open spec fn spec_digits(n: nat) -> Seq<char>
    decreases n,
{
    if n < 10 {
        seq![digit_char(n)]
    } else {
        spec_digits(n / 10).push(digit_char(n % 10))
    }
}

pub open spec fn all_digits(s: Seq<char>) -> bool {
    forall|i: int| 0 <= i < s.len() ==> is_digit_char(#[trigger] s[i])
}

/// The value of a digit string read left to right, starting from `acc`.
pub open spec fn digits_value(s: Seq<char>, acc: nat) -> nat
    decreases s.len(),
{
    if s.len() == 0 {
        acc
    } else {
        digits_value(s.drop_first(), acc * 10 + digit_val(s.first()))
    }
}

/// How many leading characters of `s` are digits.
pub open spec fn digit_prefix_len(s: Seq<char>) -> nat
    decreases s.len(),
{
    if s.len() > 0 && is_digit_char(s.first()) {
        1 + digit_prefix_len(s.drop_first())
    } else {
        0
    }
}

/// A digit field parses to the number it spells, when that fits in 64 bits.
pub open spec fn spec_parse_u64(s: Seq<char>) -> Option<u64> {
    if s.len() > 0 && all_digits(s) && digits_value(s, 0) < 0x1_0000_0000_0000_0000 {
        Some(digits_value(s, 0) as u64)
    } else {
        None
    }
}

// ---------------------------------------------------------------------------
// Length-prefixed fields.
// ---------------------------------------------------------------------------

pub open spec fn spec_encode_field(f: Seq<char>) -> Seq<char> {
    spec_digits(f.len()) + seq![':'] + f
}

pub open spec fn spec_encode_fields(fs: Seq<Seq<char>>) -> Seq<char>
    decreases fs.len(),
{
    if fs.len() == 0 {
        Seq::empty()
    } else {
        spec_encode_field(fs.first()) + spec_encode_fields(fs.drop_first())
    }
}

/// Parse one `<digits>:<text>` field; returns the field and the remainder.
pub open spec fn spec_parse_field(s: Seq<char>) -> Option<(Seq<char>, Seq<char>)> {
    let d = digit_prefix_len(s) as int;
    if d == 0 {
        None
    } else if d >= s.len() {
        None
    } else if s[d] != ':' {
        None
    } else {
        let len = digits_value(s.take(d), 0) as int;
        if s.len() < d + 1 + len {
            None
        } else {
            Some((s.subrange(d + 1, d + 1 + len), s.skip(d + 1 + len)))
        }
    }
}

/// Parse a whole encoding into its fields; `None` on any malformation.
pub open spec fn spec_fields(s: Seq<char>) -> Option<Seq<Seq<char>>>
    decreases s.len(),
{
    if s.len() == 0 {
        Some(Seq::empty())
    } else {
        match spec_parse_field(s) {
            None => None,
            Some((f, rest)) => match spec_fields(rest) {
                None => None,
                Some(fs) => Some(seq![f] + fs),
            },
        }
    }
}

// ---------------------------------------------------------------------------
// Lemmas: the numeral and its parse agree.
// ---------------------------------------------------------------------------

pub proof fn lemma_spec_digits_all_digits(n: nat)
    ensures
        all_digits(spec_digits(n)),
        spec_digits(n).len() >= 1,
    decreases n,
{
    if n >= 10 {
        lemma_spec_digits_all_digits(n / 10);
        assert forall|i: int| 0 <= i < spec_digits(n).len() implies is_digit_char(
            #[trigger] spec_digits(n)[i],
        ) by {
            if i < spec_digits(n / 10).len() {
                assert(spec_digits(n)[i] == spec_digits(n / 10)[i]);
            }
        }
    }
}

/// Appending a digit multiplies the value by ten and adds the digit.
pub proof fn lemma_digits_value_push(ds: Seq<char>, c: char, acc: nat)
    ensures
        digits_value(ds.push(c), acc) == digits_value(ds, acc) * 10 + digit_val(c),
    decreases ds.len(),
{
    let s = ds.push(c);
    assert(s.len() == ds.len() + 1);
    assert(digits_value(s, acc) == digits_value(s.drop_first(), acc * 10 + digit_val(s.first())));
    if ds.len() == 0 {
        assert(s.first() == c);
        assert(s.drop_first() =~= Seq::empty());
        assert(digits_value(s, acc) == acc * 10 + digit_val(c));
    } else {
        assert(s.first() == ds.first());
        assert(s.drop_first() =~= ds.drop_first().push(c));
        lemma_digits_value_push(ds.drop_first(), c, acc * 10 + digit_val(ds.first()));
        assert(digits_value(s, acc) == digits_value(ds.drop_first(), acc * 10 + digit_val(ds.first()))
            * 10 + digit_val(c));
        assert(digits_value(ds, acc) == digits_value(ds.drop_first(), acc * 10 + digit_val(ds.first())));
    }
}

/// The numeral of `n` reads back as `n`.
pub proof fn lemma_spec_digits_value(n: nat)
    ensures
        digits_value(spec_digits(n), 0) == n,
    decreases n,
{
    if n < 10 {
        assert(digits_value(seq![digit_char(n)], 0) == digits_value(
            seq![digit_char(n)].drop_first(),
            digit_val(digit_char(n)),
        ));
        assert(seq![digit_char(n)].drop_first() =~= Seq::empty());
        assert(digit_val(digit_char(n)) == n);
    } else {
        lemma_spec_digits_value(n / 10);
        lemma_digits_value_push(spec_digits(n / 10), digit_char(n % 10), 0);
        lemma_fundamental_div_mod(n as int, 10);
    }
}

/// Scanning digits stops exactly where the digits stop.
pub proof fn lemma_digit_prefix_of_concat(ds: Seq<char>, rest: Seq<char>)
    requires
        all_digits(ds),
        rest.len() == 0 || !is_digit_char(rest.first()),
    ensures
        digit_prefix_len(ds + rest) == ds.len(),
    decreases ds.len(),
{
    if ds.len() == 0 {
        assert(ds + rest =~= rest);
    } else {
        assert((ds + rest).first() == ds.first());
        assert((ds + rest).drop_first() =~= ds.drop_first() + rest);
        assert(all_digits(ds.drop_first())) by {
            assert forall|i: int| 0 <= i < ds.drop_first().len() implies is_digit_char(
                #[trigger] ds.drop_first()[i],
            ) by {
                assert(ds.drop_first()[i] == ds[i + 1]);
            }
        }
        lemma_digit_prefix_of_concat(ds.drop_first(), rest);
    }
}

/// Parsing an encoded field recovers the field and leaves the remainder.
pub proof fn lemma_parse_encoded_field(f: Seq<char>, rest: Seq<char>)
    ensures
        spec_parse_field(spec_encode_field(f) + rest) == Some((f, rest)),
{
    let ds = spec_digits(f.len());
    let s = spec_encode_field(f) + rest;
    let tail = seq![':'] + f + rest;
    assert(s =~= ds + tail);
    lemma_spec_digits_all_digits(f.len());
    assert(!is_digit_char(':')) by {
        assert(':' as u32 == 58);
    }
    assert(tail.first() == ':');
    lemma_digit_prefix_of_concat(ds, tail);
    let d = digit_prefix_len(s) as int;
    assert(d == ds.len());
    assert(s[d] == ':');
    assert(s.take(d) =~= ds);
    lemma_spec_digits_value(f.len());
    assert(digits_value(s.take(d), 0) == f.len());
    assert(s.len() == d + 1 + f.len() + rest.len());
    assert(s.subrange(d + 1, d + 1 + f.len() as int) =~= f);
    assert(s.skip(d + 1 + f.len() as int) =~= rest);
}

/// Encoding more fields extends the text on the right.
pub proof fn lemma_encode_fields_push(fs: Seq<Seq<char>>, f: Seq<char>)
    ensures
        spec_encode_fields(fs.push(f)) == spec_encode_fields(fs) + spec_encode_field(f),
    decreases fs.len(),
{
    if fs.len() == 0 {
        assert(fs.push(f).first() == f);
        assert(fs.push(f).drop_first() =~= Seq::empty());
        assert(spec_encode_fields(fs.push(f)) == spec_encode_field(fs.push(f).first())
            + spec_encode_fields(fs.push(f).drop_first()));
        assert(spec_encode_fields(Seq::<Seq<char>>::empty()) == Seq::<char>::empty());
        assert(spec_encode_fields(fs.push(f)) =~= spec_encode_field(f));
        assert(spec_encode_fields(fs) + spec_encode_field(f) =~= spec_encode_field(f));
    } else {
        assert(fs.push(f).first() == fs.first());
        assert(fs.push(f).drop_first() =~= fs.drop_first().push(f));
        lemma_encode_fields_push(fs.drop_first(), f);
        assert(spec_encode_field(fs.first()) + (spec_encode_fields(fs.drop_first())
            + spec_encode_field(f)) =~= (spec_encode_field(fs.first()) + spec_encode_fields(
            fs.drop_first(),
        )) + spec_encode_field(f));
    }
}

/// Round trip: decoding an encoding yields exactly the encoded fields.
pub proof fn lemma_fields_round_trip(fs: Seq<Seq<char>>)
    ensures
        spec_fields(spec_encode_fields(fs)) == Some(fs),
    decreases fs.len(),
{
    if fs.len() == 0 {
        assert(spec_encode_fields(fs).len() == 0);
    } else {
        let f = fs.first();
        let rest = spec_encode_fields(fs.drop_first());
        lemma_parse_encoded_field(f, rest);
        lemma_fields_round_trip(fs.drop_first());
        lemma_spec_digits_all_digits(f.len());
        assert(spec_encode_fields(fs).len() > 0);
        assert(seq![f] + fs.drop_first() =~= fs);
    }
}

// ---------------------------------------------------------------------------
// Executable encoding.
// ---------------------------------------------------------------------------

/// One decimal digit as text.
fn digit_str(d: u8) -> (r: &'static str)
    requires
        d < 10,
    ensures
        r@ == seq![digit_char(d as nat)],
{
    match d {
        0 => {
            proof {
                reveal_strlit("0");
                assert("0"@ =~= seq![digit_char(0)]);
            }
            "0"
        },
        1 => {
            proof {
                reveal_strlit("1");
                assert("1"@ =~= seq![digit_char(1)]);
            }
            "1"
        },
        2 => {
            proof {
                reveal_strlit("2");
                assert("2"@ =~= seq![digit_char(2)]);
            }
            "2"
        },
        3 => {
            proof {
                reveal_strlit("3");
                assert("3"@ =~= seq![digit_char(3)]);
            }
            "3"
        },
        4 => {
            proof {
                reveal_strlit("4");
                assert("4"@ =~= seq![digit_char(4)]);
            }
            "4"
        },
        5 => {
            proof {
                reveal_strlit("5");
                assert("5"@ =~= seq![digit_char(5)]);
            }
            "5"
        },
        6 => {
            proof {
                reveal_strlit("6");
                assert("6"@ =~= seq![digit_char(6)]);
            }
            "6"
        },
        7 => {
            proof {
                reveal_strlit("7");
                assert("7"@ =~= seq![digit_char(7)]);
            }
            "7"
        },
        8 => {
            proof {
                reveal_strlit("8");
                assert("8"@ =~= seq![digit_char(8)]);
            }
            "8"
        },
        _ => {
            proof {
                reveal_strlit("9");
                assert("9"@ =~= seq![digit_char(9)]);
            }
            "9"
        },
    }
}

/// The decimal numeral of `n`.
pub fn digits_string(n: u64) -> (r: String)
    ensures
        r@ == spec_digits(n as nat),
    decreases n,
{
    if n < 10 {
        digit_str(n as u8).to_owned()
    } else {
        let mut s = digits_string(n / 10);
        s.append(digit_str((n % 10) as u8));
        proof {
            assert(spec_digits((n / 10) as nat) + seq![digit_char((n % 10) as nat)] =~= spec_digits(
                (n / 10) as nat,
            ).push(digit_char((n % 10) as nat)));
        }
        s
    }
}

/// Is `c` a decimal digit?
fn is_digit_c(c: char) -> (r: bool)
    ensures
        r == is_digit_char(c),
{
    let u = c as u32;
    48 <= u && u <= 57
}

/// Parse a field of decimal digits as a 64-bit number.
pub fn parse_u64_str(s: &str) -> (r: Option<u64>)
    ensures
        r == spec_parse_u64(s@),
{
    let n = s.unicode_len();
    if n == 0 {
        return None;
    }
    let mut i: usize = 0;
    let mut val: u64 = 0;
    let mut sat: bool = false;
    while i < n
        invariant
            0 <= i <= n,
            n == s@.len(),
            all_digits(s@.take(i as int)),
            !sat ==> val as nat == digits_value(s@.take(i as int), 0),
            sat ==> digits_value(s@.take(i as int), 0) >= 0x1_0000_0000_0000_0000,
        decreases n - i,
    {
        let c = s.get_char(i);
        if !is_digit_c(c) {
            proof {
                assert(!is_digit_char(s@[i as int]));
            }
            return None;
        }
        let d = (c as u32 - 48) as u64;
        proof {
            assert(s@.take(i + 1) =~= s@.take(i as int).push(s@[i as int]));
            lemma_digits_value_push(s@.take(i as int), s@[i as int], 0);
        }
        if !sat {
            let mul = val.checked_mul(10);
            match mul {
                Some(x) => {
                    let add = x.checked_add(d);
                    match add {
                        Some(y) => {
                            val = y;
                        },
                        None => {
                            sat = true;
                        },
                    }
                },
                None => {
                    sat = true;
                },
            }
        }
        i = i + 1;
        proof {
            assert(all_digits(s@.take(i as int))) by {
                assert forall|q: int| 0 <= q < i implies is_digit_char(
                    #[trigger] s@.take(i as int)[q],
                ) by {
                    if q < i - 1 {
                        assert(s@.take(i - 1)[q] == s@.take(i as int)[q]);
                    }
                }
            }
        }
    }
    proof {
        assert(s@.take(n as int) =~= s@);
    }
    if sat {
        None
    } else {
        Some(val)
    }
}

/// Encode a flat field list as one stored string.
pub fn encode_fields(fields: &Vec<String>) -> (r: String)
    ensures
        r@ == spec_encode_fields(fields.deep_view()),
{
    let mut out = String::new();
    let mut i: usize = 0;
    proof {
        assert(fields.deep_view().take(0) =~= Seq::<Seq<char>>::empty());
    }
    while i < fields.len()
        invariant
            0 <= i <= fields.len(),
            out@ == spec_encode_fields(fields.deep_view().take(i as int)),
        decreases fields.len() - i,
    {
        let f = &fields[i];
        let flen = f.as_str().unicode_len();
        out.append(digits_string(flen as u64).as_str());
        out.append(":");
        out.append(f.as_str());
        i = i + 1;
        proof {
            reveal_strlit(":");
            assert(":"@ =~= seq![':']);
            lemma_encode_fields_push(fields.deep_view().take(i - 1), fields.deep_view()[i - 1]);
            assert(fields.deep_view().take(i as int) =~= fields.deep_view().take(i - 1).push(
                fields.deep_view()[i - 1],
            ));
            assert(fields.deep_view()[i - 1] == f@);
            assert(out@ =~= spec_encode_fields(fields.deep_view().take(i - 1))
                + spec_encode_field(f@));
        }
    }
    proof {
        assert(fields.deep_view().take(fields.len() as int) =~= fields.deep_view());
    }
    out
}

/// Decode one stored string back into its field list.
pub fn decode_fields(s: &str) -> (r: Option<Vec<String>>)
    ensures
        match r {
            Some(v) => spec_fields(s@) == Some(v.deep_view()),
            None => spec_fields(s@) is None,
        },
{
    let n = s.unicode_len();
    let mut pos: usize = 0;
    let mut out: Vec<String> = Vec::new();
    proof {
        assert(s@.skip(0) =~= s@);
        assert(out.deep_view() =~= Seq::<Seq<char>>::empty());
        assert forall|fs: Seq<Seq<char>>|
            spec_fields(s@.skip(0)) == Some(fs) implies spec_fields(s@) == Some(
            Seq::<Seq<char>>::empty() + fs,
        ) by {
            assert(Seq::<Seq<char>>::empty() + fs =~= fs);
        }
    }
    while pos < n
        invariant
            0 <= pos <= n,
            n == s@.len(),
            forall|fs: Seq<Seq<char>>|
                spec_fields(s@.skip(pos as int)) == Some(fs) ==> spec_fields(s@) == Some(
                    out.deep_view() + fs,
                ),
            spec_fields(s@.skip(pos as int)) is None ==> spec_fields(s@) is None,
        decreases n - pos,
    {
        let ghost rem = s@.skip(pos as int);
        let mut j = pos;
        let mut val: u64 = 0;
        let mut sat: bool = false;
        proof {
            assert(rem.take(0) =~= Seq::<char>::empty());
        }
        while j < n && is_digit_c(s.get_char(j))
            invariant
                pos <= j <= n,
                n == s@.len(),
                rem == s@.skip(pos as int),
                all_digits(rem.take(j - pos)),
                !sat ==> val as nat == digits_value(rem.take(j - pos), 0),
                sat ==> digits_value(rem.take(j - pos), 0) >= 0x1_0000_0000_0000_0000,
            decreases n - j,
        {
            let c = s.get_char(j);
            let d = (c as u32 - 48) as u64;
            proof {
                assert(rem[j - pos] == s@[j as int]);
                assert(rem.take(j - pos + 1) =~= rem.take(j - pos).push(rem[j - pos]));
                lemma_digits_value_push(rem.take(j - pos), rem[j - pos], 0);
            }
            if !sat {
                let mul = val.checked_mul(10);
                match mul {
                    Some(x) => {
                        let add = x.checked_add(d);
                        match add {
                            Some(y) => {
                                val = y;
                            },
                            None => {
                                sat = true;
                            },
                        }
                    },
                    None => {
                        sat = true;
                    },
                }
            }
            j = j + 1;
            proof {
                assert(all_digits(rem.take(j - pos))) by {
                    assert forall|q: int| 0 <= q < j - pos implies is_digit_char(
                        #[trigger] rem.take(j - pos)[q],
                    ) by {
                        if q < j - pos - 1 {
                            assert(rem.take(j - pos - 1)[q] == rem.take(j - pos)[q]);
                        } else {
                            assert(rem.take(j - pos)[q] == rem[j - pos - 1]);
                        }
                    }
                }
            }
        }
        let d = j - pos;
        proof {
            assert(rem =~= rem.take(d as int) + rem.skip(d as int));
            if j < n {
                assert(rem.skip(d as int).first() == rem[d as int]);
                assert(rem[d as int] == s@[j as int]);
            }
            lemma_digit_prefix_of_concat(rem.take(d as int), rem.skip(d as int));
            assert(digit_prefix_len(rem) == d);
            assert(rem.len() == n - pos);
        }
        if d == 0 {
            return None;
        }
        if j >= n {
            return None;
        }
        let c = s.get_char(j);
        if !(c == ':') {
            proof {
                assert(rem[d as int] == s@[j as int]);
            }
            return None;
        }
        proof {
            assert(rem[d as int] == ':');
            assert(rem.take(d as int) =~= rem.take(d as int));
            assert(digits_value(rem.take(d as int), 0) == digits_value(rem.take(j - pos), 0));
        }
        if sat {
            proof {
                assert(digits_value(rem.take(d as int), 0) >= 0x1_0000_0000_0000_0000);
                assert(rem.len() < d + 1 + digits_value(rem.take(d as int), 0));
            }
            return None;
        }
        let remaining = n - j - 1;
        if val > remaining as u64 {
            proof {
                assert(rem.len() < d + 1 + digits_value(rem.take(d as int), 0));
            }
            return None;
        }
        let flen = val as usize;
        let field = s.substring_char(j + 1, j + 1 + flen).to_owned();
        let ghost rest = s@.skip(pos + d + 1 + flen);
        proof {
            assert(field@ =~= rem.subrange(d + 1, d + 1 + flen as int));
            assert(rest =~= rem.skip(d + 1 + flen as int));
            assert(spec_parse_field(rem) == Some((field@, rest)));
        }
        let ghost old_deep = out.deep_view();
        out.push(field);
        pos = j + 1 + flen;
        proof {
            assert(out.deep_view() =~= old_deep.push(field@));
            assert forall|fs: Seq<Seq<char>>|
                spec_fields(s@.skip(pos as int)) == Some(fs) implies spec_fields(s@) == Some(
                out.deep_view() + fs,
            ) by {
                assert(spec_fields(rem) == Some(seq![field@] + fs));
                assert(old_deep + (seq![field@] + fs) =~= old_deep.push(field@) + fs);
            }
            if spec_fields(s@.skip(pos as int)) is None {
                assert(spec_fields(rem) is None);
            }
        }
    }
    proof {
        assert(s@.skip(pos as int) =~= Seq::<char>::empty());
        assert(spec_fields(s@.skip(pos as int)) == Some(Seq::<Seq<char>>::empty()));
        assert(out.deep_view() + Seq::<Seq<char>>::empty() =~= out.deep_view());
    }
    Some(out)
}

} // verus!
