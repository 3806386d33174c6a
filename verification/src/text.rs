//! Text for messages: decimal numbers, lists, and the order of names.

use vstd::prelude::*;
use vstd::relations::{sorted_by, total_ordering};
use vstd::string::{StrSliceExecFns, StringExecFns};

verus! {

/// The digit `d`, below ten.
pub open spec fn digit(d: int) -> char {
    (48 + d) as char
}

/// The decimal digits of `n`, without leading zeros.
pub open spec fn digits(n: nat) -> Seq<char>
    decreases n,
{
    if n < 10 {
        seq![digit(n as int)]
    } else {
        digits(n / 10).push(digit((n % 10) as int))
    }
}

/// `i` in decimal notation.
pub open spec fn decimal(i: int) -> Seq<char> {
    if i < 0 {
        seq!['-'] + digits((-i) as nat)
    } else {
        digits(i as nat)
    }
}

/// The parts, with `separator` between each two.
pub open spec fn joined(parts: Seq<Seq<char>>, separator: Seq<char>) -> Seq<char>
    decreases parts.len(),
{
    if parts.len() == 0 {
        Seq::empty()
    } else if parts.len() == 1 {
        parts[0]
    } else {
        joined(parts.drop_last(), separator) + separator + parts.last()
    }
}

/// Numbers in brackets, separated by a comma and a space.
pub open spec fn bracketed(items: Seq<i32>) -> Seq<char> {
    "["@ + joined(items.map_values(|i: i32| decimal(i as int)), ", "@) + "]"@
}

fn push_digit(s: &mut String, d: u64)
    requires
        d < 10,
    ensures
        final(s)@ == old(s)@.push(digit(d as int)),
{
    proof {
        reveal_strlit("0");
        reveal_strlit("1");
        reveal_strlit("2");
        reveal_strlit("3");
        reveal_strlit("4");
        reveal_strlit("5");
        reveal_strlit("6");
        reveal_strlit("7");
        reveal_strlit("8");
        reveal_strlit("9");
    }
    let text: &str = if d == 0 {
        "0"
    } else if d == 1 {
        "1"
    } else if d == 2 {
        "2"
    } else if d == 3 {
        "3"
    } else if d == 4 {
        "4"
    } else if d == 5 {
        "5"
    } else if d == 6 {
        "6"
    } else if d == 7 {
        "7"
    } else if d == 8 {
        "8"
    } else {
        "9"
    };
    s.append(text);
    assert(s@ =~= old(s)@.push(digit(d as int)));
}

/// Appends `n` in decimal notation.
pub fn push_digits(s: &mut String, n: u64)
    ensures
        final(s)@ == old(s)@ + digits(n as nat),
    decreases n,
{
    if n >= 10 {
        push_digits(s, n / 10);
    }
    push_digit(s, n % 10);
    assert(s@ =~= old(s)@ + digits(n as nat));
}

/// Appends `i` in decimal notation.
pub fn push_decimal(s: &mut String, i: i64)
    requires
        i > i64::MIN,
    ensures
        final(s)@ == old(s)@ + decimal(i as int),
{
    if i < 0 {
        proof {
            reveal_strlit("-");
        }
        s.append("-");
        assert("-"@ =~= seq!['-']);
        push_digits(s, (-i) as u64);
        assert(s@ =~= old(s)@ + decimal(i as int));
    } else {
        push_digits(s, i as u64);
    }
}

/// The text of a string between quotation marks, with special characters
/// escaped, as the standard library's debug format gives it.
pub uninterp spec fn quoted(text: Seq<char>) -> Seq<char>;

/// `format!` with `{:?}` on a string: the result is `quoted` of its text.
#[verifier::external_body]
pub(crate) fn quote(text: &str) -> (r: String)
    ensures
        r@ == quoted(text@),
{
    format!("{:?}", text)
}

/// Appends the numbers as a list in brackets.
pub fn push_bracketed(s: &mut String, items: &[i32])
    ensures
        final(s)@ == old(s)@ + bracketed(items@),
{
    let ghost show = |i: i32| decimal(i as int);
    let ghost parts = items@.map_values(show);
    s.append("[");
    let mut i: usize = 0;
    assert(parts.take(0) =~= Seq::empty());
    assert(s@ =~= old(s)@ + "["@ + joined(parts.take(0), ", "@));
    while i < items.len()
        invariant
            i <= items@.len(),
            show == (|i: i32| decimal(i as int)),
            parts == items@.map_values(show),
            s@ == old(s)@ + "["@ + joined(parts.take(i as int), ", "@),
        decreases items@.len() - i,
    {
        let ghost next = parts.take(i + 1);
        assert(next.drop_last() =~= parts.take(i as int));
        assert(next.last() == decimal(items@[i as int] as int));
        if i > 0 {
            s.append(", ");
        }
        push_decimal(s, items[i] as i64);
        assert(s@ =~= old(s)@ + "["@ + joined(next, ", "@));
        i = i + 1;
    }
    assert(parts.take(i as int) =~= parts);
    s.append("]");
    assert(s@ =~= old(s)@ + bracketed(items@));
}

/// Whether `a` stands before `b` or equals it, by code points.
pub open spec fn precedes(a: Seq<char>, b: Seq<char>) -> bool
    decreases a.len(),
{
    if a.len() == 0 {
        true
    } else if b.len() == 0 {
        false
    } else if a[0] == b[0] {
        precedes(a.drop_first(), b.drop_first())
    } else {
        (a[0] as int) < (b[0] as int)
    }
}

/// The order of names as a relation.
pub open spec fn name_order() -> spec_fn(Seq<char>, Seq<char>) -> bool {
    |a: Seq<char>, b: Seq<char>| precedes(a, b)
}

/// The texts of a list of strings.
pub open spec fn texts(names: Seq<String>) -> Seq<Seq<char>> {
    names.map_values(|s: String| s@)
}

/// The names in order.
pub open spec fn ordered(names: Seq<Seq<char>>) -> Seq<Seq<char>> {
    names.sort_by(name_order())
}

proof fn lemma_precedes_reflexive(a: Seq<char>)
    ensures
        precedes(a, a),
    decreases a.len(),
{
    if a.len() > 0 {
        lemma_precedes_reflexive(a.drop_first());
    }
}

proof fn lemma_precedes_antisymmetric(a: Seq<char>, b: Seq<char>)
    requires
        precedes(a, b),
        precedes(b, a),
    ensures
        a == b,
    decreases a.len(),
{
    if a.len() > 0 && b.len() > 0 {
        lemma_precedes_antisymmetric(a.drop_first(), b.drop_first());
        assert(a =~= seq![a[0]] + a.drop_first());
        assert(b =~= seq![b[0]] + b.drop_first());
    } else {
        assert(a =~= b);
    }
}

proof fn lemma_precedes_transitive(a: Seq<char>, b: Seq<char>, c: Seq<char>)
    requires
        precedes(a, b),
        precedes(b, c),
    ensures
        precedes(a, c),
    decreases a.len(),
{
    if a.len() > 0 && a[0] == b[0] && b[0] == c[0] {
        lemma_precedes_transitive(a.drop_first(), b.drop_first(), c.drop_first());
    }
}

proof fn lemma_precedes_total(a: Seq<char>, b: Seq<char>)
    ensures
        precedes(a, b) || precedes(b, a),
    decreases a.len(),
{
    if a.len() > 0 && b.len() > 0 && a[0] == b[0] {
        lemma_precedes_total(a.drop_first(), b.drop_first());
    }
}

/// Names are totally ordered.
proof fn lemma_name_order_total()
    ensures
        total_ordering(name_order()),
{
    let r = name_order();
    assert forall|a: Seq<char>| #[trigger] r(a, a) by {
        lemma_precedes_reflexive(a);
    }
    assert forall|a: Seq<char>, b: Seq<char>| #[trigger] r(a, b) && #[trigger] r(b, a) implies a
        == b by {
        lemma_precedes_antisymmetric(a, b);
    }
    assert forall|a: Seq<char>, b: Seq<char>, c: Seq<char>| #[trigger]
        r(a, b) && #[trigger] r(b, c) implies r(a, c) by {
        lemma_precedes_transitive(a, b, c);
    }
    assert forall|a: Seq<char>, b: Seq<char>| #[trigger] r(a, b) || #[trigger] r(b, a) by {
        lemma_precedes_total(a, b);
    }
}

/// Whether two texts are equal.
pub fn same(a: &str, b: &str) -> (r: bool)
    ensures
        r == (a@ == b@),
{
    let n: usize = a.unicode_len();
    if n != b.unicode_len() {
        return false;
    }
    let mut i: usize = 0;
    while i < n
        invariant
            n == a@.len(),
            n == b@.len(),
            i <= n,
            forall|j: int| 0 <= j < i ==> #[trigger] a@[j] == #[trigger] b@[j],
        decreases n - i,
    {
        if a.get_char(i) != b.get_char(i) {
            return false;
        }
        i = i + 1;
    }
    assert(a@ =~= b@);
    true
}

/// Whether `a` stands before `b` or equals it.
fn name_precedes(a: &str, b: &str) -> (r: bool)
    ensures
        r == precedes(a@, b@),
{
    let la: usize = a.unicode_len();
    let lb: usize = b.unicode_len();
    let mut i: usize = 0;
    assert(a@.skip(0) =~= a@);
    assert(b@.skip(0) =~= b@);
    while i < la && i < lb
        invariant
            la == a@.len(),
            lb == b@.len(),
            i <= la,
            i <= lb,
            precedes(a@, b@) == precedes(a@.skip(i as int), b@.skip(i as int)),
        decreases la - i,
    {
        let x = a.get_char(i);
        let y = b.get_char(i);
        if x != y {
            return x < y;
        }
        assert(a@.skip(i as int).drop_first() =~= a@.skip(i + 1));
        assert(b@.skip(i as int).drop_first() =~= b@.skip(i + 1));
        i = i + 1;
    }
    i == la
}

/// Puts `name` at its place among names that are in order.
fn insert_in_order(names: &mut Vec<String>, name: String)
    requires
        sorted_by(texts(old(names)@), name_order()),
    ensures
        sorted_by(texts(final(names)@), name_order()),
        texts(final(names)@).to_multiset() == texts(old(names)@).to_multiset().insert(name@),
        final(names)@.len() == old(names)@.len() + 1,
{
    let ghost order = name_order();
    let ghost before = texts(names@);
    proof {
        lemma_name_order_total();
    }
    let mut at: usize = 0;
    while at < names.len() && name_precedes(names[at].as_str(), name.as_str())
        invariant
            at <= names@.len(),
            order == name_order(),
            before == texts(names@),
            forall|j: int| 0 <= j < at ==> order(#[trigger] before[j], name@),
        decreases names@.len() - at,
    {
        assert(before[at as int] == names@[at as int]@);
        at = at + 1;
    }
    let ghost text = name@;
    assert(at < names@.len() ==> before[at as int] == names@[at as int]@);
    names.insert(at, name);
    let ghost after = texts(names@);
    assert(after =~= before.insert(at as int, text));
    proof {
        broadcast use vstd::seq_lib::group_to_multiset_ensures;
        broadcast use vstd::seq_lib::to_multiset_insert;

        assert(before.insert(at as int, text).to_multiset() =~= before.to_multiset().insert(text));
        assert forall|i: int, j: int| 0 <= i < j < after.len() implies #[trigger] order(
            after[i],
            after[j],
        ) by {
            if at < before.len() {
                lemma_precedes_total(text, before[at as int]);
                assert(order(text, before[at as int]));
            }
            let a = if i < at {
                i
            } else {
                i - 1
            };
            let b = if j < at {
                j
            } else {
                j - 1
            };
            if i == at {
                if b > at {
                    assert(order(before[at as int], before[b]));
                    lemma_precedes_transitive(text, before[at as int], before[b]);
                }
            } else if j == at {
                assert(order(before[i], text));
            } else {
                assert(order(before[a], before[b]));
            }
        }
    }
}

/// The names in order.
pub fn sort_names(names: Vec<String>) -> (r: Vec<String>)
    ensures
        texts(r@) == ordered(texts(names@)),
        r@.len() == names@.len(),
{
    let ghost all = texts(names@);
    let mut sorted: Vec<String> = Vec::new();
    let mut i: usize = 0;
    assert(texts(sorted@) =~= all.take(0));
    while i < names.len()
        invariant
            i <= names@.len(),
            all == texts(names@),
            sorted@.len() == i,
            sorted_by(texts(sorted@), name_order()),
            texts(sorted@).to_multiset() == all.take(i as int).to_multiset(),
        decreases names@.len() - i,
    {
        insert_in_order(&mut sorted, names[i].clone());
        proof {
            broadcast use vstd::seq_lib::group_to_multiset_ensures;

            assert(all.take(i + 1) =~= all.take(i as int).push(all[i as int]));
        }
        i = i + 1;
    }
    proof {
        assert(all.take(i as int) =~= all);
        lemma_name_order_total();
        all.lemma_sort_by_ensures(name_order());
        vstd::seq_lib::lemma_sorted_unique(texts(sorted@), ordered(all), name_order());
    }
    sorted
}

/// The order in which names come does not show once they are in order.
pub proof fn law_order_forgets_arrival(a: Seq<Seq<char>>, b: Seq<Seq<char>>)
    requires
        a.to_multiset() == b.to_multiset(),
    ensures
        ordered(a) == ordered(b),
{
    lemma_name_order_total();
    a.lemma_sort_by_ensures(name_order());
    b.lemma_sort_by_ensures(name_order());
    vstd::seq_lib::lemma_sorted_unique(ordered(a), ordered(b), name_order());
}

/// The number that a row of decimal digits stands for.
pub open spec fn number_of(s: Seq<char>) -> int
    decreases s.len(),
{
    if s.len() == 0 {
        0
    } else {
        number_of(s.drop_last()) * 10 + (s.last() as int - '0' as int)
    }
}

/// The digits of a number, read as a number, are that number. There is at least
/// one, each is a decimal digit, and only zero begins with a zero.
pub proof fn law_digits_stand_for_the_number(n: nat)
    ensures
        number_of(digits(n)) == n,
        digits(n).len() > 0,
        forall|i: int| 0 <= i < digits(n).len() ==> '0' <= #[trigger] digits(n)[i] <= '9',
        digits(n)[0] == '0' ==> n == 0,
    decreases n,
{
    reveal_with_fuel(number_of, 2);
    if n < 10 {
        assert(digits(n).drop_last() =~= Seq::empty());
    } else {
        law_digits_stand_for_the_number(n / 10);
        assert(digits(n).drop_last() =~= digits(n / 10));
        assert(digits(n)[0] == digits(n / 10)[0]);
    }
}

/// A number in decimal notation is its digits, behind a minus sign if it is
/// negative.
pub proof fn law_decimal_shows_the_sign(i: int)
    ensures
        i >= 0 ==> decimal(i) == digits(i as nat),
        i < 0 ==> decimal(i).len() > 0 && decimal(i)[0] == '-' && decimal(i).skip(1) == digits(
            (-i) as nat,
        ),
{
    if i < 0 {
        assert(decimal(i).skip(1) =~= digits((-i) as nat));
    }
}

/// Joined parts stand behind each other with the separator between each two: what
/// joins some parts and some more is what joins the first, the separator, and what
/// joins the others.
pub proof fn law_joined_parts_are_separated(
    a: Seq<Seq<char>>,
    b: Seq<Seq<char>>,
    part: Seq<char>,
    separator: Seq<char>,
)
    ensures
        joined(Seq::empty(), separator) == Seq::<char>::empty(),
        joined(seq![part], separator) == part,
        a.len() > 0 && b.len() > 0 ==> joined(a + b, separator) == joined(a, separator) + separator
            + joined(b, separator),
    decreases b.len(),
{
    if a.len() > 0 && b.len() > 0 {
        let all = a + b;
        assert(all.last() == b.last());
        if b.len() == 1 {
            assert(all.drop_last() =~= a);
        } else {
            law_joined_parts_are_separated(a, b.drop_last(), part, separator);
            assert(all.drop_last() =~= a + b.drop_last());
            assert(joined(all, separator) =~= joined(a, separator) + separator + joined(
                b,
                separator,
            ));
        }
    }
}

/// A list is shown between brackets, its numbers in decimal notation, with a comma
/// and a space between each two.
pub proof fn law_list_stands_in_brackets(items: Seq<i32>)
    ensures
        bracketed(items) == seq!['['] + joined(
            Seq::new(items.len(), |i: int| decimal(items[i] as int)),
            seq![',', ' '],
        ) + seq![']'],
{
    reveal_strlit("[");
    reveal_strlit("]");
    reveal_strlit(", ");
    assert("["@ =~= seq!['[']);
    assert("]"@ =~= seq![']']);
    assert(", "@ =~= seq![',', ' ']);
    assert(items.map_values(|i: i32| decimal(i as int)) =~= Seq::new(
        items.len(),
        |i: int| decimal(items[i] as int),
    ));
}

/// A name stands before another exactly if it is a beginning of it, or if, where
/// they first differ, its code point is the smaller one.
pub proof fn law_names_are_ordered_by_code_points(a: Seq<char>, b: Seq<char>)
    ensures
        precedes(a, b) <==> a.is_prefix_of(b) || exists|k: int|
            {
                &&& 0 <= k < a.len()
                &&& k < b.len()
                &&& (#[trigger] a[k] as int) < b[k] as int
                &&& a.take(k) == b.take(k)
            },
    decreases a.len(),
{
    if a.len() == 0 {
        assert(a =~= b.subrange(0, 0));
    } else if b.len() > 0 && a[0] == b[0] {
        let (p, q) = (a.drop_first(), b.drop_first());
        law_names_are_ordered_by_code_points(p, q);
        if p.is_prefix_of(q) {
            assert forall|i: int| 0 <= i < a.len() implies a[i] == b[i] by {
                if i > 0 {
                    assert(p[i - 1] == q.subrange(0, p.len() as int)[i - 1]);
                }
            }
            assert(a =~= b.subrange(0, a.len() as int));
        }
        if a.is_prefix_of(b) {
            assert forall|i: int| 0 <= i < p.len() implies p[i] == q[i] by {
                assert(a[i + 1] == b.subrange(0, a.len() as int)[i + 1]);
            }
            assert(p =~= q.subrange(0, p.len() as int));
        }
        if precedes(p, q) && !p.is_prefix_of(q) {
            let k = choose|k: int|
                {
                    &&& 0 <= k < p.len()
                    &&& k < q.len()
                    &&& (#[trigger] p[k] as int) < q[k] as int
                    &&& p.take(k) == q.take(k)
                };
            assert(a[k + 1] == p[k] && b[k + 1] == q[k]);
            assert forall|i: int| 0 <= i < k + 1 implies a[i] == b[i] by {
                if i > 0 {
                    assert(p.take(k)[i - 1] == q.take(k)[i - 1]);
                }
            }
            assert(a.take(k + 1) =~= b.take(k + 1));
        }
        if exists|k: int|
            {
                &&& 0 <= k < a.len()
                &&& k < b.len()
                &&& (#[trigger] a[k] as int) < b[k] as int
                &&& a.take(k) == b.take(k)
            } {
            let k = choose|k: int|
                {
                    &&& 0 <= k < a.len()
                    &&& k < b.len()
                    &&& (#[trigger] a[k] as int) < b[k] as int
                    &&& a.take(k) == b.take(k)
                };
            assert(p[k - 1] == a[k] && q[k - 1] == b[k]);
            assert forall|i: int| 0 <= i < k - 1 implies p[i] == q[i] by {
                assert(a.take(k)[i + 1] == b.take(k)[i + 1]);
            }
            assert(p.take(k - 1) =~= q.take(k - 1));
        }
    } else {
        if a.is_prefix_of(b) {
            assert(a[0] == b.subrange(0, a.len() as int)[0]);
        }
        if b.len() > 0 {
            if (a[0] as int) < b[0] as int {
                assert(a.take(0) =~= b.take(0));
            }
            if exists|k: int|
                {
                    &&& 0 <= k < a.len()
                    &&& k < b.len()
                    &&& (#[trigger] a[k] as int) < b[k] as int
                    &&& a.take(k) == b.take(k)
                } {
                let k = choose|k: int|
                    {
                        &&& 0 <= k < a.len()
                        &&& k < b.len()
                        &&& (#[trigger] a[k] as int) < b[k] as int
                        &&& a.take(k) == b.take(k)
                    };
                if k > 0 {
                    assert(a.take(k)[0] == b.take(k)[0]);
                }
            }
        }
    }
}

/// Names in order are the same names, as often as they came, and of any two the
/// earlier stands before the later.
pub proof fn law_ordered_names_are_the_names(names: Seq<Seq<char>>)
    ensures
        ordered(names).to_multiset() == names.to_multiset(),
        ordered(names).len() == names.len(),
        forall|i: int, j: int|
            0 <= i < j < names.len() ==> precedes(
                #[trigger] ordered(names)[i],
                #[trigger] ordered(names)[j],
            ),
{
    broadcast use vstd::seq_lib::group_to_multiset_ensures;

    lemma_name_order_total();
    names.lemma_sort_by_ensures(name_order());
    let o = ordered(names);
    assert(o.len() == o.to_multiset().len());
    assert(names.len() == names.to_multiset().len());
    assert forall|i: int, j: int| 0 <= i < j < names.len() implies precedes(
        #[trigger] o[i],
        #[trigger] o[j],
    ) by {
        let r = name_order();
        assert(r(o[i], o[j]));
    }
}

} // verus!
