use std::collections::VecDeque;
use vstd::prelude::*;
use vstd::string::StrSliceExecFns;

verus! {

/// Relies on alloc's `String::push`: it appends exactly the given character
/// to the end of the string and changes nothing else.
pub assume_specification[ String::push ](s: &mut String, ch: char)
    ensures
        final(s)@ == old(s)@.push(ch),
;

/// Removes and returns the longest prefix of `items` whose elements do not
/// satisfy `check`; afterwards `items` holds the rest, starting with the
/// first element for which `check` returned true (if any).
pub fn peek_take_while<T, F: Fn(&T) -> bool>(items: &mut VecDeque<T>, check: F) -> (taken:
    VecDeque<T>)
    requires
        forall|i: int|
            0 <= i < old(items)@.len() ==> call_requires(check, (&old(items)@[i],)),
    ensures
        taken@ + final(items)@ == old(items)@,
        forall|i: int|
            0 <= i < taken@.len() ==> call_ensures(check, (&old(items)@[i],), false),
        final(items)@.len() > 0 ==> call_ensures(check, (&final(items)@[0],), true),
{
    let ghost orig = items@;
    let mut taken: VecDeque<T> = VecDeque::new();
    loop
        invariant
            taken@ + items@ == orig,
            forall|i: int| 0 <= i < items@.len() ==> call_requires(check, (&items@[i],)),
            forall|i: int| 0 <= i < taken@.len() ==> call_ensures(check, (&orig[i],), false),
        ensures
            taken@ + items@ == orig,
            forall|i: int| 0 <= i < taken@.len() ==> call_ensures(check, (&orig[i],), false),
            items@.len() > 0 ==> call_ensures(check, (&items@[0],), true),
        decreases items@.len(),
    {
        if items.len() == 0 {
            break ;
        }
        let stop = check(&items[0]);
        if stop {
            break ;
        }
        let item = items.pop_front();
        match item {
            Some(item) => {
                taken.push_back(item);
                proof {
                    assert(taken@ + items@ =~= orig);
                }
            },
            None => {
                break ;
            },
        }
    }
    taken
}

/// The decimal digits of `n`, most significant first.
pub open spec fn sp_decimal(n: nat) -> Seq<char>
    decreases n,
{
    let last = sp_digit_char((n % 10) as int);
    if n < 10 {
        seq![last]
    } else {
        sp_decimal(n / 10) + seq![last]
    }
}

/// The character for one decimal digit value.
pub open spec fn sp_digit_char(v: int) -> char {
    if v == 0 {
        '0'
    } else if v == 1 {
        '1'
    } else if v == 2 {
        '2'
    } else if v == 3 {
        '3'
    } else if v == 4 {
        '4'
    } else if v == 5 {
        '5'
    } else if v == 6 {
        '6'
    } else if v == 7 {
        '7'
    } else if v == 8 {
        '8'
    } else {
        '9'
    }
}

fn digit_char(v: usize) -> (c: char)
    requires
        v < 10,
    ensures
        c == sp_digit_char(v as int),
{
    match v {
        0 => '0',
        1 => '1',
        2 => '2',
        3 => '3',
        4 => '4',
        5 => '5',
        6 => '6',
        7 => '7',
        8 => '8',
        _ => '9',
    }
}

/// Appends the decimal rendering of `n` to `buf`.
pub fn append_decimal(buf: &mut String, n: usize)
    ensures
        final(buf)@ == old(buf)@ + sp_decimal(n as nat),
    decreases n,
{
    if n >= 10 {
        append_decimal(buf, n / 10);
    }
    let c = digit_char(n % 10);
    buf.push(c);
    proof {
        assert(buf@ =~= old(buf)@ + sp_decimal(n as nat));
    }
}

/// Every sequence is a prefix of itself.
pub proof fn lemma_prefix_refl<T>(s: Seq<T>)
    ensures
        s.is_prefix_of(s),
{
    assert(s =~= s.subrange(0, s.len() as int));
}

/// A sequence stays a prefix when the other grows by one element.
pub proof fn lemma_prefix_of_push<T>(s: Seq<T>, x: T)
    ensures
        s.is_prefix_of(s.push(x)),
{
    assert(s =~= s.push(x).subrange(0, s.len() as int));
}

/// Being a prefix is transitive.
pub proof fn lemma_prefix_trans<T>(a: Seq<T>, b: Seq<T>, c: Seq<T>)
    requires
        a.is_prefix_of(b),
        b.is_prefix_of(c),
    ensures
        a.is_prefix_of(c),
{
    assert(a =~= c.subrange(0, a.len() as int));
}

/// The characters of `s`, as a queue ready for the lexer.
pub fn string_to_deque(s: &str) -> (r: VecDeque<char>)
    ensures
        r@ == s@,
{
    let mut r: VecDeque<char> = VecDeque::new();
    let len = s.unicode_len();
    let mut i: usize = 0;
    while i < len
        invariant
            i <= len,
            len == s@.len(),
            r@ == s@.take(i as int),
        decreases len - i,
    {
        let c = s.get_char(i);
        r.push_back(c);
        proof {
            assert(r@ =~= s@.take(i + 1 as int));
        }
        i = i + 1;
    }
    proof {
        assert(r@ =~= s@);
    }
    r
}

} // verus!
