//! Numbers and lists of numbers as text: decimal digits, and lists whose
//! items are separated by commas.

use vstd::prelude::*;
use vstd::string::StringExecFns;

verus! {

/// The character is one of the ten decimal digits.
pub open spec fn is_digit(c: char) -> bool {
    '0' <= c <= '9'
}

/// The number that a decimal digit stands for.
pub open spec fn digit_value(c: char) -> int {
    c as int - '0' as int
}

/// The decimal digit that stands for a number below ten.
pub open spec fn digit_char(d: int) -> char {
    if d == 0 {
        '0'
    } else if d == 1 {
        '1'
    } else if d == 2 {
        '2'
    } else if d == 3 {
        '3'
    } else if d == 4 {
        '4'
    } else if d == 5 {
        '5'
    } else if d == 6 {
        '6'
    } else if d == 7 {
        '7'
    } else if d == 8 {
        '8'
    } else {
        '9'
    }
}

/// Every character of the text is a decimal digit.
pub open spec fn all_digits(s: Seq<char>) -> bool {
    forall|i: int| 0 <= i < s.len() ==> is_digit(#[trigger] s[i])
}

/// The number that a text of decimal digits denotes, the empty text denoting
/// zero.
pub open spec fn digits_value(s: Seq<char>) -> int
    decreases s.len(),
{
    if s.len() == 0 {
        0
    } else {
        digits_value(s.drop_last()) * 10 + digit_value(s.last())
    }
}

/// The number that a text denotes: the text has to consist of one or more
/// decimal digits and to denote a number that 64 bits can hold.
pub open spec fn number_of_text(s: Seq<char>) -> Option<u64> {
    if s.len() > 0 && all_digits(s) && digits_value(s) <= u64::MAX {
        Some(digits_value(s) as u64)
    } else {
        None
    }
}

/// The decimal text of a number, without leading zeros.
pub open spec fn decimal_text(n: nat) -> Seq<char>
    decreases n,
{
    if n < 10 {
        seq![digit_char(n as int)]
    } else {
        decimal_text(n / 10).push(digit_char((n % 10) as int))
    }
}

/// The text without the commas at its start.
pub open spec fn trim_front(s: Seq<char>) -> Seq<char>
    decreases s.len(),
{
    if s.len() > 0 && s[0] == ',' {
        trim_front(s.drop_first())
    } else {
        s
    }
}

/// The text without the commas at its end.
pub open spec fn trim_back(s: Seq<char>) -> Seq<char>
    decreases s.len(),
{
    if s.len() > 0 && s.last() == ',' {
        trim_back(s.drop_last())
    } else {
        s
    }
}

/// The items of a text between its commas: one more than it has commas, the
/// empty text having one empty item.
pub open spec fn split_items(s: Seq<char>) -> Seq<Seq<char>>
    decreases s.len(),
{
    if s.len() == 0 {
        seq![Seq::<char>::empty()]
    } else {
        let before = split_items(s.drop_last());
        if s.last() == ',' {
            before.push(Seq::<char>::empty())
        } else {
            before.drop_last().push(before.last().push(s.last()))
        }
    }
}

/// The numbers that the items denote, if each of them denotes one.
pub open spec fn numbers_of_items(items: Seq<Seq<char>>) -> Option<Seq<u64>>
    decreases items.len(),
{
    if items.len() == 0 {
        Some(Seq::empty())
    } else {
        match (numbers_of_items(items.drop_last()), number_of_text(items.last())) {
            (Some(numbers), Some(n)) => Some(numbers.push(n)),
            _ => None,
        }
    }
}

/// The numbers of a list text: commas at both ends are left out, what is
/// left is split at its commas, and each item has to denote a number.
pub open spec fn numbers_of_text(s: Seq<char>) -> Option<Seq<u64>> {
    numbers_of_items(split_items(trim_back(trim_front(s))))
}

/// The decimal texts of the numbers with a comma between each two.
pub open spec fn joined_text(numbers: Seq<u64>) -> Seq<char>
    decreases numbers.len(),
{
    if numbers.len() == 0 {
        Seq::empty()
    } else if numbers.len() == 1 {
        decimal_text(numbers[0] as nat)
    } else {
        joined_text(numbers.drop_last()).push(',') + decimal_text(numbers.last() as nat)
    }
}

/// The list text of the numbers: their decimal texts with a comma between
/// each two and a comma at the end.
pub open spec fn list_text(numbers: Seq<u64>) -> Seq<char> {
    joined_text(numbers).push(',')
}

/// The characters of a text.
pub fn chars_of(text: &str) -> (r: Vec<char>)
    ensures
        r@ == text@,
{
    let mut out: Vec<char> = Vec::new();
    for c in it: text.chars()
        invariant
            out@ == it.seq().take(it.index()),
            it.seq() == text@,
    {
        out.push(c);
    }
    out
}

fn digit_of(c: char) -> (r: Option<u64>)
    ensures
        match r {
            Some(d) => is_digit(c) && d == digit_value(c),
            None => !is_digit(c),
        },
{
    match c {
        '0' => Some(0),
        '1' => Some(1),
        '2' => Some(2),
        '3' => Some(3),
        '4' => Some(4),
        '5' => Some(5),
        '6' => Some(6),
        '7' => Some(7),
        '8' => Some(8),
        '9' => Some(9),
        _ => None,
    }
}

proof fn lemma_digits_value_grows(s: Seq<char>, k: int)
    requires
        0 <= k <= s.len(),
        all_digits(s),
    ensures
        0 <= digits_value(s.take(k)) <= digits_value(s),
    decreases s.len() - k,
{
    if k == s.len() {
        assert(s.take(k) =~= s);
        lemma_digits_value_nonnegative(s);
    } else {
        assert(s.take(k + 1).drop_last() =~= s.take(k));
        assert(is_digit(s[k]));
        assert(s.take(k + 1).last() == s[k]);
        lemma_digits_value_nonnegative(s.take(k));
        lemma_digits_value_grows(s, k + 1);
    }
}

proof fn lemma_digits_value_nonnegative(s: Seq<char>)
    requires
        all_digits(s),
    ensures
        0 <= digits_value(s),
    decreases s.len(),
{
    if s.len() > 0 {
        assert(all_digits(s.drop_last())) by {
            assert forall|i: int| 0 <= i < s.drop_last().len() implies is_digit(
                #[trigger] s.drop_last()[i],
            ) by {
                assert(s.drop_last()[i] == s[i]);
            }
        }
        lemma_digits_value_nonnegative(s.drop_last());
        assert(is_digit(s[s.len() - 1]));
    }
}

/// Reads the number that the characters from `from` up to `to` denote.
fn parse_range(chars: &Vec<char>, from: usize, to: usize) -> (r: Option<u64>)
    requires
        from <= to <= chars.len(),
    ensures
        r == number_of_text(chars@.subrange(from as int, to as int)),
{
    let ghost s = chars@.subrange(from as int, to as int);
    if from == to {
        return None;
    }
    let mut value: u64 = 0;
    let mut i: usize = from;
    while i < to
        invariant
            from <= i <= to <= chars.len(),
            s == chars@.subrange(from as int, to as int),
            all_digits(s.take(i - from)),
            value == digits_value(s.take(i - from)),
        decreases to - i,
    {
        proof {
            assert(s.take(i - from + 1).drop_last() =~= s.take(i - from));
            assert(s.take(i - from + 1).last() == chars@[i as int]);
            assert(s[i - from] == chars@[i as int]);
        }
        let digit = match digit_of(chars[i]) {
            Some(d) => d,
            None => {
                return None;
            },
        };
        proof {
            assert forall|j: int| 0 <= j < i - from + 1 implies is_digit(
                #[trigger] s.take(i - from + 1)[j],
            ) by {
                if j < i - from {
                    assert(s.take(i - from)[j] == s.take(i - from + 1)[j]);
                }
            }
        }
        let next = match value.checked_mul(10) {
            Some(scaled) => scaled.checked_add(digit),
            None => None,
        };
        match next {
            Some(n) => {
                value = n;
            },
            None => {
                proof {
                    if all_digits(s) {
                        lemma_digits_value_grows(s, i - from + 1);
                    }
                }
                return None;
            },
        }
        i += 1;
    }
    proof {
        assert(s.take(to - from) =~= s);
    }
    Some(value)
}

/// Reads a number from its decimal text.
pub fn parse_u64(text: &str) -> (r: Option<u64>)
    ensures
        r == number_of_text(text@),
{
    let chars = chars_of(text);
    proof {
        assert(chars@.subrange(0, chars@.len() as int) =~= chars@);
    }
    parse_range(&chars, 0, chars.len())
}

fn digit_text(d: u64) -> (r: &'static str)
    requires
        d < 10,
    ensures
        r@ == seq![digit_char(d as int)],
{
    proof {
        reveal_strlit("0");
        reveal_strlit("1");
        reveal_strlit("2");
        reveal_strlit("3");
        reveal_strlit("4");
        reveal_strlit("5");
        reveal_strlit("6");
        reveal_strlit("7");
        reveal_strlit("8");
        reveal_strlit("9");
    }
    let r = if d == 0 {
        "0"
    } else if d == 1 {
        "1"
    } else if d == 2 {
        "2"
    } else if d == 3 {
        "3"
    } else if d == 4 {
        "4"
    } else if d == 5 {
        "5"
    } else if d == 6 {
        "6"
    } else if d == 7 {
        "7"
    } else if d == 8 {
        "8"
    } else {
        "9"
    };
    proof {
        assert(r@ =~= seq![digit_char(d as int)]);
    }
    r
}

/// Writes the decimal text of a number behind a text.
pub fn push_u64(out: &mut String, n: u64)
    ensures
        final(out)@ == old(out)@ + decimal_text(n as nat),
    decreases n,
{
    if n >= 10 {
        push_u64(out, n / 10);
    }
    out.append(digit_text(n % 10));
    proof {
        if n >= 10 {
            assert(final(out)@ =~= old(out)@ + decimal_text(n as nat));
        } else {
            assert(final(out)@ =~= old(out)@ + decimal_text(n as nat));
        }
    }
}

/// The decimal text of a number.
pub fn format_u64(n: u64) -> (r: String)
    ensures
        r@ == decimal_text(n as nat),
{
    let mut out = String::new();
    push_u64(&mut out, n);
    proof {
        assert(Seq::<char>::empty() + decimal_text(n as nat) =~= decimal_text(n as nat));
    }
    out
}

/// The list text of the numbers.
pub fn format_list(numbers: &Vec<u64>) -> (r: String)
    ensures
        r@ == list_text(numbers@),
{
    let mut out = String::new();
    let mut i: usize = 0;
    while i < numbers.len()
        invariant
            0 <= i <= numbers.len(),
            out@ == joined_text(numbers@.take(i as int)),
        decreases numbers.len() - i,
    {
        proof {
            assert(numbers@.take(i + 1).drop_last() =~= numbers@.take(i as int));
            assert(numbers@.take(i + 1).last() == numbers@[i as int]);
            assert(numbers@.take(i + 1)[0] == numbers@[0]);
            reveal_strlit(",");
        }
        let ghost before = out@;
        if i > 0 {
            out.append(",");
            proof {
                assert(out@ =~= before.push(','));
            }
        }
        push_u64(&mut out, numbers[i]);
        proof {
            if i == 0 {
                assert(out@ =~= decimal_text(numbers@[0] as nat));
            }
        }
        i += 1;
    }
    proof {
        assert(numbers@.take(numbers.len() as int) =~= numbers@);
        reveal_strlit(",");
    }
    let ghost joined = out@;
    out.append(",");
    proof {
        assert(out@ =~= joined.push(','));
    }
    out
}

/// Reads the numbers of a list text.
pub fn parse_list(text: &str) -> (r: Option<Vec<u64>>)
    ensures
        match r {
            Some(numbers) => numbers_of_text(text@) == Some(numbers@),
            None => numbers_of_text(text@).is_none(),
        },
{
    let chars = chars_of(text);
    let ghost s = chars@;
    let mut from: usize = 0;
    proof {
        assert(s.skip(0) =~= s);
    }
    while from < chars.len() && chars[from] == ','
        invariant
            0 <= from <= chars.len(),
            s == chars@,
            trim_front(s) == trim_front(s.skip(from as int)),
        decreases chars.len() - from,
    {
        proof {
            assert(s.skip(from as int).drop_first() =~= s.skip(from + 1));
        }
        from += 1;
    }
    let ghost front = s.skip(from as int);
    proof {
        assert(trim_front(front) == front);
        assert(front.take(front.len() as int) =~= front);
    }
    let mut to: usize = chars.len();
    while to > from && chars[to - 1] == ','
        invariant
            from <= to <= chars.len(),
            s == chars@,
            front == s.skip(from as int),
            trim_back(front) == trim_back(front.take(to - from)),
        decreases to - from,
    {
        proof {
            assert(front.take(to - from).drop_last() =~= front.take(to - from - 1));
            assert(front.take(to - from).last() == s[to - 1]);
        }
        to -= 1;
    }
    let ghost body = front.take(to - from);
    proof {
        if to > from {
            assert(body.last() == s[to - 1]);
        }
        assert(trim_back(body) == body);
        assert(body =~= s.subrange(from as int, to as int));
    }
    let mut numbers: Vec<u64> = Vec::new();
    let mut sound = true;
    let mut item_from: usize = from;
    let mut i: usize = from;
    let ghost mut done: Seq<Seq<char>> = Seq::empty();
    proof {
        assert(body.take(0).len() == 0);
        assert(s.subrange(from as int, from as int) =~= Seq::<char>::empty());
        assert(split_items(body.take(0)) =~= done.push(s.subrange(from as int, from as int)));
    }
    while i < to
        invariant
            from <= item_from <= i <= to <= chars.len(),
            s == chars@,
            body == s.subrange(from as int, to as int),
            split_items(body.take(i - from)) == done.push(
                s.subrange(item_from as int, i as int),
            ),
            sound ==> numbers_of_items(done) == Some(numbers@),
            !sound ==> numbers_of_items(done).is_none(),
        decreases to - i,
    {
        proof {
            assert(body.take(i - from + 1).drop_last() =~= body.take(i - from));
            assert(body.take(i - from + 1).last() == s[i as int]);
            assert(done.push(s.subrange(item_from as int, i as int)).drop_last() =~= done);
        }
        if chars[i] == ',' {
            let item = parse_range(&chars, item_from, i);
            proof {
                let finished = done.push(s.subrange(item_from as int, i as int));
                assert(finished.drop_last() =~= done);
                assert(finished.last() == s.subrange(item_from as int, i as int));
                done = finished;
                assert(s.subrange(i + 1, i + 1) =~= Seq::<char>::empty());
            }
            match item {
                Some(n) => {
                    if sound {
                        numbers.push(n);
                    }
                },
                None => {
                    sound = false;
                },
            }
            item_from = i + 1;
        } else {
            proof {
                assert(s.subrange(item_from as int, i as int).push(s[i as int]) =~= s.subrange(
                    item_from as int,
                    i + 1,
                ));
            }
        }
        i += 1;
    }
    let last = parse_range(&chars, item_from, to);
    proof {
        assert(body.take(to - from) =~= body);
        let items = done.push(s.subrange(item_from as int, to as int));
        assert(items.drop_last() =~= done);
        assert(items.last() == s.subrange(item_from as int, to as int));
    }
    match last {
        Some(n) => {
            if sound {
                numbers.push(n);
                Some(numbers)
            } else {
                None
            }
        },
        None => None,
    }
}

proof fn lemma_decimal_text_value(n: nat)
    ensures
        decimal_text(n).len() > 0,
        all_digits(decimal_text(n)),
        digits_value(decimal_text(n)) == n,
    decreases n,
{
    let digit = (n % 10) as int;
    assert(is_digit(digit_char(digit)) && digit_value(digit_char(digit)) == digit);
    if n >= 10 {
        lemma_decimal_text_value(n / 10);
        let init = decimal_text(n / 10);
        let text = decimal_text(n);
        assert(text.drop_last() =~= init);
        assert(text.last() == digit_char(digit));
        assert forall|i: int| 0 <= i < text.len() implies is_digit(#[trigger] text[i]) by {
            if i < init.len() {
                assert(text[i] == init[i]);
            }
        }
        assert(digits_value(text) == digits_value(init) * 10 + digit);
    } else {
        let text = decimal_text(n);
        assert(text.drop_last() =~= Seq::<char>::empty());
        assert(text.last() == digit_char(digit));
        assert(digits_value(text.drop_last()) == 0);
        assert(digits_value(text) == digit);
    }
}

/// The decimal text of a number denotes that number.
pub proof fn number_reads_back(n: u64)
    ensures
        number_of_text(decimal_text(n as nat)) == Some(n),
{
    lemma_decimal_text_value(n as nat);
}

proof fn lemma_split_items_nonempty(s: Seq<char>)
    ensures
        split_items(s).len() > 0,
    decreases s.len(),
{
    if s.len() > 0 {
        lemma_split_items_nonempty(s.drop_last());
    }
}

proof fn lemma_split_items_append(s: Seq<char>, d: Seq<char>)
    requires
        all_digits(d),
    ensures
        split_items(s).len() > 0,
        split_items(s + d) == split_items(s).drop_last().push(split_items(s).last() + d),
    decreases d.len(),
{
    lemma_split_items_nonempty(s);
    let items = split_items(s);
    if d.len() == 0 {
        assert(s + d =~= s);
        assert(items.last() + d =~= items.last());
        assert(items.drop_last().push(items.last()) =~= items);
    } else {
        let init = d.drop_last();
        assert forall|i: int| 0 <= i < init.len() implies is_digit(#[trigger] init[i]) by {
            assert(init[i] == d[i]);
        }
        lemma_split_items_append(s, init);
        assert((s + d).drop_last() =~= s + init);
        assert(is_digit(d[d.len() - 1]));
        assert((s + d).last() == d.last());
        let before = split_items(s + init);
        assert(before.drop_last() =~= items.drop_last());
        assert(before.last().push(d.last()) =~= items.last() + d);
    }
}

/// The decimal texts of the numbers, in order.
pub open spec fn decimal_items(numbers: Seq<u64>) -> Seq<Seq<char>> {
    numbers.map_values(|n: u64| decimal_text(n as nat))
}

proof fn lemma_split_joined(numbers: Seq<u64>)
    requires
        numbers.len() > 0,
    ensures
        split_items(joined_text(numbers)) == decimal_items(numbers),
        joined_text(numbers).len() > 0,
        is_digit(joined_text(numbers)[0]),
        is_digit(joined_text(numbers).last()),
    decreases numbers.len(),
{
    let d = decimal_text(numbers.last() as nat);
    lemma_decimal_text_value(numbers.last() as nat);
    assert(is_digit(d[0]));
    assert(is_digit(d[d.len() - 1]));
    if numbers.len() == 1 {
        let none = Seq::<char>::empty();
        lemma_split_items_append(none, d);
        assert(none + d =~= d);
        assert(split_items(none) =~= seq![none]);
        assert(split_items(d) =~= decimal_items(numbers));
    } else {
        let init = numbers.drop_last();
        lemma_split_joined(init);
        let head = joined_text(init).push(',');
        assert(head.drop_last() =~= joined_text(init));
        assert(split_items(head) == split_items(joined_text(init)).push(Seq::<char>::empty()));
        lemma_split_items_append(head, d);
        assert(split_items(head).drop_last() =~= decimal_items(init));
        assert(Seq::<char>::empty() + d =~= d);
        assert(decimal_items(init).push(d) =~= decimal_items(numbers));
        assert((head + d)[0] == joined_text(init)[0]);
        assert((head + d).last() == d.last());
    }
}

proof fn lemma_decimal_items_read_back(numbers: Seq<u64>)
    ensures
        numbers_of_items(decimal_items(numbers)) == Some(numbers),
    decreases numbers.len(),
{
    if numbers.len() > 0 {
        let init = numbers.drop_last();
        lemma_decimal_items_read_back(init);
        number_reads_back(numbers.last());
        assert(decimal_items(numbers).drop_last() =~= decimal_items(init));
        assert(init.push(numbers.last()) =~= numbers);
    } else {
        assert(numbers =~= Seq::<u64>::empty());
    }
}

/// The list text of one or more numbers denotes these numbers.
pub proof fn list_reads_back(numbers: Seq<u64>)
    requires
        numbers.len() > 0,
    ensures
        numbers_of_text(list_text(numbers)) == Some(numbers),
{
    let joined = joined_text(numbers);
    let text = list_text(numbers);
    lemma_split_joined(numbers);
    lemma_decimal_items_read_back(numbers);
    assert(text[0] == joined[0]);
    assert(trim_front(text) == text);
    assert(text.drop_last() =~= joined);
    assert(trim_back(joined) == joined);
    assert(trim_back(text) == joined);
}

} // verus!
