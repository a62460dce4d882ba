//! Numbers as decimal text, and texts in order.

use vstd::prelude::*;

verus! {

/// The digit `d` as a character, for `d` below ten.
pub open spec fn digit_char(d: nat) -> char {
    ('0' as nat + d) as char
}

/// The decimal digits of `n`, most significant first, with no leading zero.
pub open spec fn decimal_digits(n: nat) -> Seq<char>
    decreases n,
{
    if n < 10 {
        seq![digit_char(n)]
    } else {
        decimal_digits(n / 10).push(digit_char(n % 10))
    }
}

/// The decimal text of `n`: a minus sign for a negative number, then the
/// digits of its magnitude.
pub open spec fn decimal_text(n: int) -> Seq<char> {
    if n < 0 {
        seq!['-'] + decimal_digits((-n) as nat)
    } else {
        decimal_digits(n as nat)
    }
}

fn digit_str(d: u64) -> (text: &'static str)
    requires
        d < 10,
    ensures
        text@ == seq![digit_char(d as nat)],
{
    proof {
        reveal_strlit("0");
        reveal_strlit("1");
        reveal_strlit("2");
        reveal_strlit("3");
        reveal_strlit("4");
        reveal_strlit("5");
        reveal_strlit("6");
        reveal_strlit("7");
        reveal_strlit("8");
        reveal_strlit("9");
    }
    let text: &'static str = match d {
        0 => "0",
        1 => "1",
        2 => "2",
        3 => "3",
        4 => "4",
        5 => "5",
        6 => "6",
        7 => "7",
        8 => "8",
        _ => "9",
    };
    assert(text@ =~= seq![digit_char(d as nat)]);
    text
}

fn push_digits(text: &mut String, n: u64)
    ensures
        final(text)@ == old(text)@ + decimal_digits(n as nat),
    decreases n,
{
    if n >= 10 {
        push_digits(text, n / 10);
    }
    text.append(digit_str(n % 10));
    assert(text@ =~= old(text)@ + decimal_digits(n as nat));
}

/// The decimal text of `n`.
pub fn decimal(n: i32) -> (text: String)
    ensures
        text@ == decimal_text(n as int),
{
    let mut text = String::new();
    let wide: i64 = n as i64;
    if wide < 0 {
        text.append("-");
        proof {
            reveal_strlit("-");
        }
        push_digits(&mut text, (-wide) as u64);
    } else {
        push_digits(&mut text, wide as u64);
    }
    assert(text@ =~= decimal_text(n as int));
    text
}

proof fn lemma_digits_first(n: nat)
    ensures
        decimal_digits(n).len() > 0,
        '0' <= decimal_digits(n)[0] <= '9',
    decreases n,
{
    if n >= 10 {
        lemma_digits_first(n / 10);
    }
}

proof fn lemma_digits_injective(a: nat, b: nat)
    requires
        decimal_digits(a) == decimal_digits(b),
    ensures
        a == b,
    decreases a,
{
    let s = decimal_digits(a);
    lemma_digits_first(a / 10);
    lemma_digits_first(b / 10);
    assert(s.last() == digit_char(a % 10));
    assert(s.last() == digit_char(b % 10));
    if a >= 10 && b >= 10 {
        assert(decimal_digits(a / 10) =~= s.drop_last());
        assert(decimal_digits(b / 10) =~= s.drop_last());
        lemma_digits_injective(a / 10, b / 10);
    }
}

/// Two numbers with the same decimal text are the same number.
pub proof fn law_decimal_text_injective(a: int, b: int)
    requires
        decimal_text(a) == decimal_text(b),
    ensures
        a == b,
{
    let ma = (if a < 0 { -a } else { a }) as nat;
    let mb = (if b < 0 { -b } else { b }) as nat;
    lemma_digits_first(ma);
    lemma_digits_first(mb);
    let sa = decimal_text(a);
    let sb = decimal_text(b);
    if a < 0 && b < 0 {
        assert(decimal_digits(ma) =~= sa.drop_first());
        assert(decimal_digits(mb) =~= sb.drop_first());
        lemma_digits_injective(ma, mb);
    } else if a >= 0 && b >= 0 {
        lemma_digits_injective(ma, mb);
    } else {
        assert(sa[0] == sb[0]);
    }
}

/// Whether `a` comes before `b` in lexicographic order by character, the
/// order of Rust's strings.
pub open spec fn text_less(a: Seq<char>, b: Seq<char>) -> bool
    decreases a.len(),
{
    if b.len() == 0 {
        false
    } else if a.len() == 0 {
        true
    } else if a[0] != b[0] {
        a[0] < b[0]
    } else {
        text_less(a.drop_first(), b.drop_first())
    }
}

/// How one text stands to another.
#[derive(Debug, Clone, Copy, PartialEq, Eq, Structural)]
pub enum TextOrder {
    Less,
    Equal,
    Greater,
}

/// How `a` stands to `b` in lexicographic order.
pub fn text_order(a: &str, b: &str) -> (order: TextOrder)
    ensures
        order == TextOrder::Less <==> text_less(a@, b@),
        order == TextOrder::Equal <==> a@ == b@,
        order == TextOrder::Greater <==> text_less(b@, a@),
{
    let a_len: usize = a.unicode_len();
    let b_len: usize = b.unicode_len();
    let mut i: usize = 0;
    assert(a@.skip(0) =~= a@ && b@.skip(0) =~= b@);
    while i < a_len && i < b_len
        invariant
            a_len == a@.len(),
            b_len == b@.len(),
            i <= a_len,
            i <= b_len,
            a@.take(i as int) == b@.take(i as int),
            text_less(a@, b@) == text_less(a@.skip(i as int), b@.skip(i as int)),
            text_less(b@, a@) == text_less(b@.skip(i as int), a@.skip(i as int)),
        decreases a_len - i,
    {
        let x: char = a.get_char(i);
        let y: char = b.get_char(i);
        assert(a@.skip(i as int)[0] == x && b@.skip(i as int)[0] == y);
        if x < y {
            assert(a@[i as int] != b@[i as int]);
            return TextOrder::Less;
        }
        if y < x {
            assert(a@[i as int] != b@[i as int]);
            return TextOrder::Greater;
        }
        proof {
            assert(a@.skip(i as int).drop_first() =~= a@.skip(i + 1));
            assert(b@.skip(i as int).drop_first() =~= b@.skip(i + 1));
            assert(a@.take(i + 1) =~= a@.take(i as int).push(x));
            assert(b@.take(i + 1) =~= b@.take(i as int).push(y));
        }
        i += 1;
    }
    if i < b_len {
        assert(a@.len() != b@.len());
        TextOrder::Less
    } else if i < a_len {
        assert(a@.len() != b@.len());
        TextOrder::Greater
    } else {
        assert(a@.take(i as int) =~= a@ && b@.take(i as int) =~= b@);
        TextOrder::Equal
    }
}

/// The order of texts is strict: no text comes before itself, and of two
/// texts that differ exactly one comes first.
pub proof fn lemma_text_order_is_strict(a: Seq<char>, b: Seq<char>)
    ensures
        !text_less(a, a),
        !(text_less(a, b) && text_less(b, a)),
        a == b || text_less(a, b) || text_less(b, a),
    decreases a.len(),
{
    if a.len() > 0 {
        if b.len() > 0 {
            lemma_text_order_is_strict(a.drop_first(), b.drop_first());
            if a[0] == b[0] && a.drop_first() == b.drop_first() {
                assert(a =~= seq![a[0]] + a.drop_first());
                assert(b =~= seq![b[0]] + b.drop_first());
            }
        } else {
            lemma_text_order_is_strict(a.drop_first(), a.drop_first());
        }
    } else if b.len() == 0 {
        assert(a =~= b);
    }
}

/// The order of texts is transitive.
pub proof fn lemma_text_order_is_transitive(a: Seq<char>, b: Seq<char>, c: Seq<char>)
    requires
        text_less(a, b),
        text_less(b, c),
    ensures
        text_less(a, c),
    decreases a.len(),
{
    if a.len() > 0 && a[0] == b[0] && b[0] == c[0] {
        lemma_text_order_is_transitive(a.drop_first(), b.drop_first(), c.drop_first());
    }
}

/// Whether `c` is a decimal digit.
pub open spec fn is_digit(c: char) -> bool {
    '0' <= c <= '9'
}

/// The number that a reader makes of a run of digits, taking them one by one
/// from the left.
pub open spec fn read_digits(text: Seq<char>) -> int
    decreases text.len(),
{
    if text.len() == 0 {
        0
    } else {
        10 * read_digits(text.drop_last()) + (text.last() as int - '0' as int)
    }
}

/// The number that a reader makes of a text: a run of digits, or a minus sign
/// and a run of digits.
pub open spec fn read_number(text: Seq<char>) -> int {
    if text.len() > 0 && text[0] == '-' {
        -read_digits(text.drop_first())
    } else {
        read_digits(text)
    }
}

proof fn lemma_digits_read_back(n: nat)
    ensures
        read_digits(decimal_digits(n)) == n,
        decimal_digits(n).len() > 0,
        forall|i: int| 0 <= i < decimal_digits(n).len() ==> is_digit(#[trigger] decimal_digits(n)[i]),
        decimal_digits(n)[0] == '0' ==> decimal_digits(n).len() == 1,
        decimal_digits(n)[0] == '0' ==> n == 0,
    decreases n,
{
    let text = decimal_digits(n);
    if n < 10 {
        assert(text.drop_last() =~= Seq::empty());
        reveal_with_fuel(read_digits, 2);
    } else {
        lemma_digits_read_back(n / 10);
        assert(text.drop_last() =~= decimal_digits(n / 10));
        assert(text.last() == digit_char(n % 10));
    }
}

/// Whether `text` is how `n` is written: a reader gets `n` from it, and it
/// holds digits alone, but for the minus sign of a negative number, and no
/// leading zero.
pub open spec fn writes(text: Seq<char>, n: int) -> bool {
    let first = if n < 0 { 1int } else { 0 };
    &&& read_number(text) == n
    &&& text.len() > first
    &&& n < 0 <==> text[0] == '-'
    &&& forall|i: int| first <= i < text.len() ==> is_digit(#[trigger] text[i])
    &&& text[first] == '0' ==> text.len() == 1
}

/// The decimal text of a number is how it is written.
pub proof fn law_decimal_text_reads_back(n: int)
    ensures
        writes(decimal_text(n), n),
        read_number(decimal_text(n)) == n,
{
    let text = decimal_text(n);
    if n < 0 {
        lemma_digits_read_back((-n) as nat);
        assert(text.drop_first() =~= decimal_digits((-n) as nat));
    } else {
        lemma_digits_read_back(n as nat);
    }
}

/// What [`decimal`] returns is how `n` is written: a reader gets `n` back.
pub proof fn law_decimal_reads_back(n: i32, text: String)
    requires
        call_ensures(decimal, (n,), text),
    ensures
        writes(text@, n as int),
        read_number(text@) == n,
{
    law_decimal_text_reads_back(n as int);
}

/// Whether `a` and `b` agree up to `i`, and there `a` has ended or has the
/// smaller character.
pub open spec fn parts_at(a: Seq<char>, b: Seq<char>, i: int) -> bool {
    &&& 0 <= i <= a.len()
    &&& i < b.len()
    &&& a.take(i) == b.take(i)
    &&& i == a.len() || a[i] < b[i]
}

/// Whether `a` is a proper prefix of `b` or has the smaller character where
/// the two first differ.
pub open spec fn lexicographically_before(a: Seq<char>, b: Seq<char>) -> bool {
    exists|i: int| #[trigger] parts_at(a, b, i)
}

/// One text comes before another if it is a proper prefix of it or has the
/// smaller character where they first differ.
pub proof fn law_text_less_is_lexicographic(a: Seq<char>, b: Seq<char>)
    ensures
        text_less(a, b) <==> lexicographically_before(a, b),
    decreases a.len(),
{
    if b.len() > 0 {
        if a.len() == 0 {
            assert(a.take(0) =~= b.take(0));
            assert(parts_at(a, b, 0));
        } else if a[0] != b[0] {
            if a[0] < b[0] {
                assert(a.take(0) =~= b.take(0));
                assert(parts_at(a, b, 0));
            }
            if lexicographically_before(a, b) {
                let i = choose|i: int| #[trigger] parts_at(a, b, i);
                if i > 0 {
                    assert(a.take(i)[0] == b.take(i)[0]);
                }
            }
        } else {
            let ar = a.drop_first();
            let br = b.drop_first();
            law_text_less_is_lexicographic(ar, br);
            if lexicographically_before(ar, br) {
                let i = choose|i: int| #[trigger] parts_at(ar, br, i);
                assert(a.take(i + 1) =~= seq![a[0]] + ar.take(i));
                assert(b.take(i + 1) =~= seq![b[0]] + br.take(i));
                assert(parts_at(a, b, i + 1));
            }
            if lexicographically_before(a, b) {
                let i = choose|i: int| #[trigger] parts_at(a, b, i);
                assert(i > 0);
                assert(ar.take(i - 1) =~= a.take(i).drop_first());
                assert(br.take(i - 1) =~= b.take(i).drop_first());
                assert(parts_at(ar, br, i - 1));
            }
        }
    }
}

/// What [`text_order`] returns tells which text comes first.
pub proof fn law_text_order_is_lexicographic(a: &str, b: &str, order: TextOrder)
    requires
        call_ensures(text_order, (a, b), order),
    ensures
        order == TextOrder::Less <==> lexicographically_before(a@, b@),
        order == TextOrder::Equal <==> a@ == b@,
        order == TextOrder::Greater <==> lexicographically_before(b@, a@),
{
    law_text_less_is_lexicographic(a@, b@);
    law_text_less_is_lexicographic(b@, a@);
}

} // verus!
