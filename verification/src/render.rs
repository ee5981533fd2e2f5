use vstd::prelude::*;

use crate::list::LinkedList;

verus! {

/// The decimal digit character for `d`, which must lie in 0..10.
pub open spec fn dec_digit(d: int) -> char {
    if d == 0 {
        '0'
    } else if d == 1 {
        '1'
    } else if d == 2 {
        '2'
    } else if d == 3 {
        '3'
    } else if d == 4 {
        '4'
    } else if d == 5 {
        '5'
    } else if d == 6 {
        '6'
    } else if d == 7 {
        '7'
    } else if d == 8 {
        '8'
    } else {
        '9'
    }
}

/// The decimal rendering of a non-negative number, most significant
/// digit first, with no leading zero except for the number zero itself.
pub open spec fn dec_nat(n: nat) -> Seq<char>
    decreases n,
{
    if n < 10 {
        seq![dec_digit(n as int)]
    } else {
        dec_nat(n / 10).push(dec_digit((n % 10) as int))
    }
}

/// The decimal rendering of an integer: a minus sign before the digits
/// when it is negative.
pub open spec fn dec_int(v: int) -> Seq<char> {
    if v < 0 {
        seq!['-'] + dec_nat((-v) as nat)
    } else {
        dec_nat(v as nat)
    }
}

/// The separator written between two rendered elements.
pub open spec fn sep_chars() -> Seq<char> {
    seq![',', ' ']
}

/// The rendering of a sequence of numbers: their decimal forms joined
/// by the separator; the empty sequence renders as nothing.
pub open spec fn rendered_ints(s: Seq<i32>) -> Seq<char>
    decreases s.len(),
{
    if s.len() == 0 {
        Seq::empty()
    } else if s.len() == 1 {
        dec_int(s[0] as int)
    } else {
        rendered_ints(s.drop_last()) + sep_chars() + dec_int(s.last() as int)
    }
}

/// The rendering of a sequence of strings: the strings themselves,
/// joined by the separator; the empty sequence renders as nothing.
pub open spec fn rendered_strings(s: Seq<String>) -> Seq<char>
    decreases s.len(),
{
    if s.len() == 0 {
        Seq::empty()
    } else if s.len() == 1 {
        s[0]@
    } else {
        rendered_strings(s.drop_last()) + sep_chars() + s.last()@
    }
}

fn digit_str(d: u64) -> (r: &'static str)
    requires
        d < 10,
    ensures
        r@ == seq![dec_digit(d as int)],
{
    proof {
        reveal_strlit("0");
        reveal_strlit("1");
        reveal_strlit("2");
        reveal_strlit("3");
        reveal_strlit("4");
        reveal_strlit("5");
        reveal_strlit("6");
        reveal_strlit("7");
        reveal_strlit("8");
        reveal_strlit("9");
    }
    if d == 0 {
        "0"
    } else if d == 1 {
        "1"
    } else if d == 2 {
        "2"
    } else if d == 3 {
        "3"
    } else if d == 4 {
        "4"
    } else if d == 5 {
        "5"
    } else if d == 6 {
        "6"
    } else if d == 7 {
        "7"
    } else if d == 8 {
        "8"
    } else {
        "9"
    }
}

fn push_dec_u64(n: u64, out: &mut String)
    ensures
        final(out)@ == old(out)@ + dec_nat(n as nat),
    decreases n,
{
    if n < 10 {
        out.append(digit_str(n));
        proof {
            assert(final(out)@ =~= old(out)@ + dec_nat(n as nat));
        }
    } else {
        push_dec_u64(n / 10, out);
        out.append(digit_str(n % 10));
        proof {
            assert(final(out)@ =~= old(out)@ + dec_nat(n as nat));
        }
    }
}

fn push_dec_i32(v: i32, out: &mut String)
    ensures
        final(out)@ == old(out)@ + dec_int(v as int),
{
    if v < 0 {
        proof {
            reveal_strlit("-");
        }
        out.append("-");
        let m: u64 = (-(v as i64)) as u64;
        push_dec_u64(m, out);
        proof {
            assert(m as nat == (-(v as int)) as nat);
            assert(final(out)@ =~= old(out)@ + dec_int(v as int));
        }
    } else {
        push_dec_u64(v as u64, out);
    }
}

impl LinkedList<i32> {
    /// Renders the list head first, each value in decimal, values
    /// separated by a comma and a space; the empty list gives the empty
    /// string. The rendering follows the list's true sequence order.
    pub fn render(&self) -> (r: String)
        requires
            self.wf(),
        ensures
            r@ == rendered_ints(self@),
    {
        let n = self.length();
        let mut out = String::new();
        let mut cur: Option<usize> = self.head_index();
        let mut k: usize = 0;
        loop
            invariant
                self.wf(),
                self@.len() == n as nat,
                k as int <= self@.len(),
                cur == self.node_at(k as int),
                (cur is Some) <==> (k as int) < self@.len(),
                out@ == rendered_ints(self@.take(k as int)),
            ensures
                out@ == rendered_ints(self@),
            decreases self@.len() - k,
        {
            match cur {
                None => {
                    proof {
                        assert(self@.take(k as int) =~= self@);
                    }
                    break ;
                },
                Some(i) => {
                    if k > 0 {
                        proof {
                            reveal_strlit(", ");
                            assert(", "@ =~= sep_chars());
                        }
                        out.append(", ");
                    }
                    push_dec_i32(*self.value_at(i, Ghost(k as int)), &mut out);
                    cur = self.next_of(i, Ghost(k as int));
                    k = k + 1;
                    proof {
                        let t = self@.take(k as int);
                        assert(t.drop_last() =~= self@.take(k as int - 1));
                        assert(t.last() == self@[k as int - 1]);
                        assert(out@ =~= rendered_ints(t));
                    }
                },
            }
        }
        out
    }
}

impl LinkedList<String> {
    /// Renders the list head first, the strings themselves separated by
    /// a comma and a space; the empty list gives the empty string. The
    /// rendering follows the list's true sequence order.
    pub fn render(&self) -> (r: String)
        requires
            self.wf(),
        ensures
            r@ == rendered_strings(self@),
    {
        let n = self.length();
        let mut out = String::new();
        let mut cur: Option<usize> = self.head_index();
        let mut k: usize = 0;
        loop
            invariant
                self.wf(),
                self@.len() == n as nat,
                k as int <= self@.len(),
                cur == self.node_at(k as int),
                (cur is Some) <==> (k as int) < self@.len(),
                out@ == rendered_strings(self@.take(k as int)),
            ensures
                out@ == rendered_strings(self@),
            decreases self@.len() - k,
        {
            match cur {
                None => {
                    proof {
                        assert(self@.take(k as int) =~= self@);
                    }
                    break ;
                },
                Some(i) => {
                    if k > 0 {
                        proof {
                            reveal_strlit(", ");
                            assert(", "@ =~= sep_chars());
                        }
                        out.append(", ");
                    }
                    out.append(self.value_at(i, Ghost(k as int)).as_str());
                    cur = self.next_of(i, Ghost(k as int));
                    k = k + 1;
                    proof {
                        let t = self@.take(k as int);
                        assert(t.drop_last() =~= self@.take(k as int - 1));
                        assert(t.last() == self@[k as int - 1]);
                        assert(out@ =~= rendered_strings(t));
                    }
                },
            }
        }
        out
    }
}

} // verus!
