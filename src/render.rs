use vstd::prelude::*;

verus! {

/// The character that writes the decimal digit `d`.
pub open spec fn digit_char(d: nat) -> char {
    if d == 0 {
        '0'
    } else if d == 1 {
        '1'
    } else if d == 2 {
        '2'
    } else if d == 3 {
        '3'
    } else if d == 4 {
        '4'
    } else if d == 5 {
        '5'
    } else if d == 6 {
        '6'
    } else if d == 7 {
        '7'
    } else if d == 8 {
        '8'
    } else {
        '9'
    }
}

/// `n` in decimal: its digits, most significant first, with no leading zero.
pub open spec fn decimal(n: nat) -> Seq<char>
    decreases n,
{
    if n < 10 {
        seq![digit_char(n)]
    } else {
        decimal(n / 10) + seq![digit_char(n % 10)]
    }
}

/// The elements of `s` in decimal, in order, separated by a comma and a space.
pub open spec fn items_text(s: Seq<u64>) -> Seq<char>
    decreases s.len(),
{
    if s.len() == 0 {
        Seq::empty()
    } else if s.len() == 1 {
        decimal(s[0] as nat)
    } else {
        items_text(s.drop_last()) + seq![',', ' '] + decimal(s.last() as nat)
    }
}

/// The text of a list of integers: its items between square brackets,
/// as in `[]` or `[1, 20, 300]`.
pub open spec fn list_text(s: Seq<u64>) -> Seq<char> {
    seq!['['] + items_text(s) + seq![']']
}

/// Where the `i`-th element of `s` begins in `list_text(s)`: after the
/// opening bracket and, for each earlier element, its digits and a separator.
pub open spec fn item_start(s: Seq<u64>, i: int) -> int
    decreases i,
{
    if i <= 0 {
        1
    } else {
        item_start(s, i - 1) + decimal(s[i - 1] as nat).len() + 2
    }
}

fn digit_str(d: u64) -> (r: &'static str)
    requires
        d < 10,
    ensures
        r@ == seq![digit_char(d as nat)],
{
    if d == 0 {
        proof { reveal_strlit("0"); }
        "0"
    } else if d == 1 {
        proof { reveal_strlit("1"); }
        "1"
    } else if d == 2 {
        proof { reveal_strlit("2"); }
        "2"
    } else if d == 3 {
        proof { reveal_strlit("3"); }
        "3"
    } else if d == 4 {
        proof { reveal_strlit("4"); }
        "4"
    } else if d == 5 {
        proof { reveal_strlit("5"); }
        "5"
    } else if d == 6 {
        proof { reveal_strlit("6"); }
        "6"
    } else if d == 7 {
        proof { reveal_strlit("7"); }
        "7"
    } else if d == 8 {
        proof { reveal_strlit("8"); }
        "8"
    } else {
        proof { reveal_strlit("9"); }
        "9"
    }
}

/// Writes `n` in decimal.
pub fn decimal_text(n: u64) -> (r: String)
    ensures
        r@ == decimal(n as nat),
    decreases n,
{
    if n < 10 {
        let mut s = String::new();
        s.append(digit_str(n));
        assert(s@ =~= decimal(n as nat));
        s
    } else {
        let mut s = decimal_text(n / 10);
        s.append(digit_str(n % 10));
        s
    }
}

/// Writes a list of integers as `[a, b, c]`: the elements in decimal, in
/// order, separated by a comma and a space, between square brackets.
pub fn format_slice(slice: &[u64]) -> (r: String)
    ensures
        r@ == list_text(slice@),
{
    let mut res = String::new();
    proof { reveal_strlit("["); }
    res.append("[");
    let n: usize = slice.len();
    let mut i: usize = 0;
    while i < n
        invariant
            n == slice@.len(),
            i <= n,
            res@ == seq!['['] + items_text(slice@.take(i as int)),
        decreases n - i,
    {
        let ghost before = res@;
        let digits = decimal_text(slice[i]);
        if i > 0 {
            proof { reveal_strlit(", "); }
            res.append(", ");
        }
        res.append(digits.as_str());
        proof {
            let t = slice@.take(i as int + 1);
            assert(t.drop_last() =~= slice@.take(i as int));
            assert(t.last() == slice@[i as int]);
            if i == 0 {
                assert(slice@.take(0) =~= Seq::<u64>::empty());
                assert(res@ =~= seq!['['] + items_text(t));
            } else {
                assert(res@ =~= seq!['['] + items_text(t));
            }
        }
        i = i + 1;
    }
    proof { reveal_strlit("]"); }
    res.append("]");
    assert(slice@.take(n as int) =~= slice@);
    assert(res@ =~= list_text(slice@));
    res
}

proof fn lemma_item_start_prefix(s: Seq<u64>, p: Seq<u64>, i: int)
    requires
        0 <= i <= p.len() <= s.len(),
        p =~= s.take(p.len() as int),
    ensures
        item_start(s, i) == item_start(p, i),
    decreases i,
{
    if i > 0 {
        lemma_item_start_prefix(s, p, i - 1);
    }
}

proof fn lemma_item_start_positive(s: Seq<u64>, i: int)
    requires
        0 <= i,
    ensures
        item_start(s, i) >= 1,
    decreases i,
{
    if i > 0 {
        lemma_item_start_positive(s, i - 1);
    }
}

proof fn lemma_items_text_len(s: Seq<u64>)
    requires
        s.len() > 0,
    ensures
        1 + items_text(s).len() == item_start(s, s.len() - 1) + decimal(s.last() as nat).len(),
    decreases s.len(),
{
    if s.len() > 1 {
        let p = s.drop_last();
        lemma_items_text_len(p);
        lemma_item_start_prefix(s, p, p.len() - 1);
    }
}

/// What holds of the `i`-th element of `s` inside `list_text(s)`.
pub open spec fn item_in_place(s: Seq<u64>, i: int) -> bool {
    let a = item_start(s, i);
    let b = a + decimal(s[i] as nat).len();
    &&& b < item_start(s, i + 1)
    &&& b < list_text(s).len()
    &&& list_text(s).subrange(a, b) == decimal(s[i] as nat)
}

proof fn lemma_item_in_place(s: Seq<u64>, i: int)
    requires
        0 <= i < s.len(),
    ensures
        item_in_place(s, i),
    decreases s.len(),
{
    let p = s.drop_last();
    let last = s.len() - 1;
    let d = decimal(s[i] as nat);
    if s.len() == 1 {
        assert(list_text(s).subrange(1, 1 + d.len() as int) =~= d);
    } else {
        lemma_items_text_len(p);
        lemma_item_start_prefix(s, p, last - 1);
        let body = seq!['['] + items_text(p);
        assert(list_text(s) =~= body + (seq![',', ' '] + decimal(s.last() as nat) + seq![']']));
        if i < last {
            lemma_item_in_place(p, i);
            lemma_item_start_prefix(s, p, i);
            lemma_item_start_prefix(s, p, i + 1);
            assert(p[i] == s[i]);
            assert(list_text(p) =~= body + seq![']']);
            let a = item_start(s, i);
            let b = a + d.len();
            lemma_item_start_positive(s, i);
            assert(b <= body.len());
            assert(list_text(s).subrange(a, b) =~= body.subrange(a, b));
            assert(list_text(p).subrange(a, b) =~= body.subrange(a, b));
        } else {
            assert(item_start(s, last) == body.len() + 2);
            assert(list_text(s).subrange(body.len() + 2int, body.len() + 2int + d.len()) =~= d);
        }
    }
}

/// The text of a list holds every element in decimal, in order: the `i`-th
/// element's digits stand at `item_start(s, i)`, and the next element begins
/// only after them.
pub proof fn lemma_list_text_items_in_order(s: Seq<u64>)
    ensures
        forall|i: int| 0 <= i < s.len() ==> #[trigger] item_in_place(s, i),
{
    assert forall|i: int| 0 <= i < s.len() implies #[trigger] item_in_place(s, i) by {
        lemma_item_in_place(s, i);
    }
}

} // verus!
