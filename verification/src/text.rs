//! How enumeration values are shown as text: by name when the value has
//! one, else as a conversion from its number.
use vstd::prelude::*;

verus! {

/// The decimal digit for `d`, below ten.
pub open spec fn digit_char(d: nat) -> char {
    if d == 0 {
        '0'
    } else if d == 1 {
        '1'
    } else if d == 2 {
        '2'
    } else if d == 3 {
        '3'
    } else if d == 4 {
        '4'
    } else if d == 5 {
        '5'
    } else if d == 6 {
        '6'
    } else if d == 7 {
        '7'
    } else if d == 8 {
        '8'
    } else {
        '9'
    }
}

/// The decimal digits of `n`, most significant first, with no leading zero
/// (`0` is the single digit `0`).
pub open spec fn digits(n: nat) -> Seq<char>
    decreases n,
{
    if n < 10 {
        seq![digit_char(n)]
    } else {
        digits(n / 10).push(digit_char(n % 10))
    }
}

/// `v` in decimal, with a leading `-` when it is negative.
pub open spec fn decimal(v: int) -> Seq<char> {
    if v < 0 {
        seq!['-'] + digits((-v) as nat)
    } else {
        digits(v as nat)
    }
}

/// The number that the decimal digits `s` stand for, most significant first.
pub open spec fn digits_value(s: Seq<char>) -> int
    decreases s.len(),
{
    if s.len() == 0 {
        0
    } else {
        digits_value(s.drop_last()) * 10 + (s.last() as int - '0' as int)
    }
}

/// The digit for `d` is the character `'0'` moved up by `d`.
pub proof fn lemma_digit_char(d: nat)
    requires
        d < 10,
    ensures
        digit_char(d) as int == '0' as int + d,
{
}

/// The digits of `n` are decimal digits, at least one, with no leading zero
/// unless `n` is zero, and they read back as `n`.
pub proof fn lemma_digits_read_back(n: nat)
    ensures
        digits(n).len() >= 1,
        forall|i: int| 0 <= i < digits(n).len() ==> '0' as int <= #[trigger] digits(n)[i] as int <= '9' as int,
        n > 0 ==> digits(n)[0] != '0',
        digits_value(digits(n)) == n,
    decreases n,
{
    lemma_digit_char(n % 10);
    if n >= 10 {
        lemma_digits_read_back(n / 10);
        let d = digits(n);
        assert(d.drop_last() =~= digits(n / 10));
        assert forall|i: int| 0 <= i < d.len() implies '0' as int <= #[trigger] d[i] as int <= '9' as int by {
            if i < d.len() - 1 {
                assert(d[i] == digits(n / 10)[i]);
            }
        }
        assert(d.last() == digit_char(n % 10));
        assert(n / 10 * 10 + n % 10 == n);
        assert(digits_value(d) == digits_value(digits(n / 10)) * 10 + (n % 10));
    } else {
        assert(digits(n).drop_last() =~= Seq::<char>::empty());
        assert(n % 10 == n);
        assert(digits_value(Seq::<char>::empty()) == 0);
        assert(digits_value(digits(n)) == digits_value(digits(n).drop_last()) * 10 + (digits(n).last() as int
            - '0' as int));
    }
}

/// `v` in decimal reads back as `v`: its digits give its magnitude, behind a
/// `-` exactly when it is negative.
pub proof fn lemma_decimal_read_back(v: int)
    ensures
        v < 0 ==> decimal(v)[0] == '-' && digits_value(decimal(v).drop_first()) == -v,
        v >= 0 ==> digits_value(decimal(v)) == v,
        decimal(v).len() >= 1,
        forall|i: int| 0 <= i < decimal(v).len() ==> (i == 0 && v < 0) || '0' as int <= #[trigger] decimal(v)[i] as int
            <= '9' as int,
{
    if v < 0 {
        lemma_digits_read_back((-v) as nat);
        assert(decimal(v).drop_first() =~= digits((-v) as nat));
        assert forall|i: int| 0 <= i < decimal(v).len() implies (i == 0 && v < 0) || '0' as int
            <= #[trigger] decimal(v)[i] as int <= '9' as int by {
            if i > 0 {
                assert(decimal(v)[i] == digits((-v) as nat)[i - 1]);
            }
        }
    } else {
        lemma_digits_read_back(v as nat);
    }
}

/// Appends `s` to `buf` with std's `String::push_str`; trusted to leave
/// `buf` holding its old characters followed by those of `s`, as that
/// method's documentation states.
#[verifier::external_body]
fn push_str(buf: &mut String, s: &str)
    ensures
        final(buf)@ == old(buf)@ + s@,
{
    buf.push_str(s);
}

/// Appends `c` to `buf` with std's `String::push`; trusted to leave `buf`
/// holding its old characters followed by `c`, as that method's
/// documentation states.
#[verifier::external_body]
fn push_char(buf: &mut String, c: char)
    ensures
        final(buf)@ == old(buf)@.push(c),
{
    buf.push(c);
}

/// The decimal digit for `d`.
fn digit(d: u32) -> (c: char)
    requires
        d < 10,
    ensures
        c == digit_char(d as nat),
{
    match d {
        0 => '0',
        1 => '1',
        2 => '2',
        3 => '3',
        4 => '4',
        5 => '5',
        6 => '6',
        7 => '7',
        8 => '8',
        _ => '9',
    }
}

/// Appends the decimal digits of `n`.
fn push_digits(buf: &mut String, n: u32)
    ensures
        final(buf)@ == old(buf)@ + digits(n as nat),
    decreases n,
{
    if n >= 10 {
        push_digits(buf, n / 10);
    }
    push_char(buf, digit(n % 10));
    assert(digits(n as nat) =~= if n < 10 {
        seq![digit_char(n as nat)]
    } else {
        digits((n / 10) as nat).push(digit_char((n % 10) as nat))
    });
    assert(old(buf)@ + digits(n as nat) =~= final(buf)@) by {
        if n >= 10 {
            assert(old(buf)@ + digits((n / 10) as nat).push(digit_char((n % 10) as nat)) =~= (old(buf)@
                + digits((n / 10) as nat)).push(digit_char((n % 10) as nat)));
        }
    }
}

/// `ty`, `::` and `name`: how a value that has a name is shown.
pub fn qualified_text(ty: &str, name: &str) -> (r: String)
    ensures
        r@ == ty@ + "::"@ + name@,
{
    let mut r = String::new();
    push_str(&mut r, ty);
    push_str(&mut r, "::");
    push_str(&mut r, name);
    assert(Seq::<char>::empty() + ty@ + "::"@ + name@ =~= ty@ + "::"@ + name@);
    r
}

/// `ty`, `::from(`, `v` in decimal and `)`: how a value with no name is
/// shown.
pub fn from_text(ty: &str, v: i32) -> (r: String)
    ensures
        r@ == ty@ + "::from("@ + decimal(v as int) + ")"@,
{
    let mut r = String::new();
    push_str(&mut r, ty);
    push_str(&mut r, "::from(");
    let ghost before = r@;
    if v < 0 {
        push_char(&mut r, '-');
        let magnitude: u32 = if v == i32::MIN {
            0x8000_0000u32
        } else {
            (-v) as u32
        };
        push_digits(&mut r, magnitude);
        assert(r@ =~= before + (seq!['-'] + digits((-(v as int)) as nat)));
    } else {
        push_digits(&mut r, v as u32);
    }
    push_str(&mut r, ")");
    assert(Seq::<char>::empty() + ty@ + "::from("@ =~= ty@ + "::from("@);
    r
}

} // verus!
