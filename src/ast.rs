//! The syntax tree, its mathematical model, and its canonical text form.
use vstd::prelude::*;
use vstd::string::StringExecFns;
use crate::text::{chars_of, push_char};
use crate::token::is_digit;

verus! {

/// The operators the parser builds nodes from.
#[derive(Clone, Copy, Debug, PartialEq, Eq, Structural)]
pub enum Op {
    Minus,
    Plus,
    Mult,
    Div,
    Grt,
    Les,
}

/// A leaf value.
#[derive(Clone, Debug, PartialEq)]
pub enum Atom {
    Int(i32),
    Id(String),
}

/// An expression or conditional; every node owns its children.
#[derive(Debug)]
pub enum Expr {
    Atom(Atom),
    Unary(Op, Box<Expr>),
    Binary(Op, Box<Expr>, Box<Expr>),
    If(Box<Expr>, Box<Expr>),
    IfElse(Box<Expr>, Box<Expr>, Box<Expr>),
}

/// The mathematical model of an `Expr`.
pub enum Tree {
    Int(int),
    Id(Seq<char>),
    Unary(Op, Box<Tree>),
    Binary(Op, Box<Tree>, Box<Tree>),
    If(Box<Tree>, Box<Tree>),
    IfElse(Box<Tree>, Box<Tree>, Box<Tree>),
}

impl Atom {
    pub open spec fn view(&self) -> Tree {
        match self {
            Atom::Int(v) => Tree::Int(*v as int),
            Atom::Id(x) => Tree::Id(x@),
        }
    }

    /// The canonical text of the atom: the decimal value or the name.
    pub fn to_text(&self) -> (r: String)
        ensures
            r@ == render(self.view()),
    {
        let mut out = String::new();
        self.write_to(&mut out);
        proof {
            assert(out@ =~= render(self.view()));
        }
        out
    }

    pub fn write_to(&self, out: &mut String)
        ensures
            final(out)@ == old(out)@ + render(self.view()),
    {
        match self {
            Atom::Int(v) => write_int(out, *v),
            Atom::Id(x) => out.append(x.as_str()),
        }
    }
}

impl Expr {
    pub open spec fn view(&self) -> Tree
        decreases self,
    {
        match self {
            Expr::Atom(a) => a.view(),
            Expr::Unary(op, e) => Tree::Unary(*op, Box::new(e.view())),
            Expr::Binary(op, l, r) => Tree::Binary(*op, Box::new(l.view()), Box::new(r.view())),
            Expr::If(c, b) => Tree::If(Box::new(c.view()), Box::new(b.view())),
            Expr::IfElse(c, t, e) => Tree::IfElse(
                Box::new(c.view()),
                Box::new(t.view()),
                Box::new(e.view()),
            ),
        }
    }

    /// The canonical parenthesized prefix text of the expression.
    pub fn to_text(&self) -> (r: String)
        ensures
            r@ == render(self.view()),
    {
        let mut out = String::new();
        self.write_to(&mut out);
        proof {
            assert(out@ =~= render(self.view()));
        }
        out
    }

    /// Appends the canonical text of the expression to `out`.
    pub fn write_to(&self, out: &mut String)
        ensures
            final(out)@ == old(out)@ + render(self.view()),
        decreases self,
    {
        let ghost o = out@;
        match self {
            Expr::Atom(a) => a.write_to(out),
            Expr::Unary(op, e) => {
                push_char(out, '(');
                push_char(out, op.symbol());
                push_char(out, ' ');
                e.write_to(out);
                push_char(out, ')');
                proof {
                    assert(out@ =~= o + render(self.view()));
                }
            },
            Expr::Binary(op, l, r) => {
                push_char(out, '(');
                push_char(out, op.symbol());
                push_char(out, ' ');
                l.write_to(out);
                push_char(out, ' ');
                r.write_to(out);
                push_char(out, ')');
                proof {
                    assert(out@ =~= o + render(self.view()));
                }
            },
            Expr::If(c, b) => {
                out.append("(if (");
                c.write_to(out);
                out.append(") (");
                b.write_to(out);
                out.append("))");
                proof {
                    reveal_strlit("(if (");
                    reveal_strlit(") (");
                    reveal_strlit("))");
                    assert(out@ =~= o + render(self.view()));
                }
            },
            Expr::IfElse(c, t, e) => {
                out.append("(if (");
                c.write_to(out);
                out.append(") then (");
                t.write_to(out);
                out.append(") else (");
                e.write_to(out);
                out.append("))");
                proof {
                    reveal_strlit("(if (");
                    reveal_strlit(") then (");
                    reveal_strlit(") else (");
                    reveal_strlit("))");
                    assert(out@ =~= o + render(self.view()));
                }
            },
        }
    }
}

impl Op {
    pub open spec fn spec_symbol(self) -> char {
        match self {
            Op::Minus => '-',
            Op::Plus => '+',
            Op::Mult => '*',
            Op::Div => '/',
            Op::Grt => '>',
            Op::Les => '<',
        }
    }

    /// The character that spells the operator.
    #[verifier::when_used_as_spec(spec_symbol)]
    pub fn symbol(self) -> (r: char)
        ensures
            r == self.spec_symbol(),
    {
        match self {
            Op::Minus => '-',
            Op::Plus => '+',
            Op::Mult => '*',
            Op::Div => '/',
            Op::Grt => '>',
            Op::Les => '<',
        }
    }

    /// The canonical text of the operator.
    pub fn to_text(&self) -> (r: String)
        ensures
            r@ == seq![self.spec_symbol()],
    {
        let mut out = String::new();
        push_char(&mut out, self.symbol());
        proof {
            assert(out@ =~= seq![self.spec_symbol()]);
        }
        out
    }

    /// The operator spelled by the one character `c`, if any.
    pub open spec fn spec_from_char(c: char) -> Option<Op> {
        if c == '-' {
            Some(Op::Minus)
        } else if c == '+' {
            Some(Op::Plus)
        } else if c == '*' {
            Some(Op::Mult)
        } else if c == '/' {
            Some(Op::Div)
        } else if c == '>' {
            Some(Op::Grt)
        } else if c == '<' {
            Some(Op::Les)
        } else {
            None
        }
    }

    /// The operator spelled `text`, if any.
    pub open spec fn spec_from_text(text: Seq<char>) -> Option<Op> {
        if text.len() == 1 {
            Op::spec_from_char(text[0])
        } else {
            None
        }
    }

    /// The operator spelled `text`, if it is one of the six.
    pub fn from_text(text: &str) -> (r: Option<Op>)
        ensures
            r == Op::spec_from_text(text@),
    {
        let cs = chars_of(text);
        if cs.len() != 1 {
            return None;
        }
        let c = cs[0];
        if c == '-' {
            Some(Op::Minus)
        } else if c == '+' {
            Some(Op::Plus)
        } else if c == '*' {
            Some(Op::Mult)
        } else if c == '/' {
            Some(Op::Div)
        } else if c == '>' {
            Some(Op::Grt)
        } else if c == '<' {
            Some(Op::Les)
        } else {
            None
        }
    }
}

/// The digit character for `d < 10`.
pub open spec fn digit_char(d: int) -> char {
    if d == 0 { '0' }
    else if d == 1 { '1' }
    else if d == 2 { '2' }
    else if d == 3 { '3' }
    else if d == 4 { '4' }
    else if d == 5 { '5' }
    else if d == 6 { '6' }
    else if d == 7 { '7' }
    else if d == 8 { '8' }
    else { '9' }
}

/// The decimal digits of `n`, without leading zeros.
pub open spec fn digits(n: nat) -> Seq<char>
    decreases n,
{
    if n < 10 {
        seq![digit_char(n as int)]
    } else {
        digits(n / 10) + seq![digit_char((n % 10) as int)]
    }
}

/// The decimal text of `v`, with a leading `-` when negative.
pub open spec fn int_text(v: int) -> Seq<char> {
    if v < 0 {
        seq!['-'] + digits((-v) as nat)
    } else {
        digits(v as nat)
    }
}

/// The canonical text of a tree.
pub open spec fn render(t: Tree) -> Seq<char>
    decreases t,
{
    match t {
        Tree::Int(v) => int_text(v),
        Tree::Id(x) => x,
        Tree::Unary(op, e) => seq!['(', op.spec_symbol(), ' '] + render(*e) + seq![')'],
        Tree::Binary(op, l, r) => seq!['(', op.spec_symbol(), ' '] + render(*l) + seq![' ']
            + render(*r) + seq![')'],
        Tree::If(c, b) => seq!['(', 'i', 'f', ' ', '('] + render(*c) + seq![')', ' ', '(']
            + render(*b) + seq![')', ')'],
        Tree::IfElse(c, t, e) => seq!['(', 'i', 'f', ' ', '('] + render(*c) + seq![
            ')',
            ' ',
            't',
            'h',
            'e',
            'n',
            ' ',
            '(',
        ] + render(*t) + seq![')', ' ', 'e', 'l', 's', 'e', ' ', '('] + render(*e) + seq![
            ')',
            ')',
        ],
    }
}

fn digit_of(d: u32) -> (r: char)
    requires
        d < 10,
    ensures
        r == digit_char(d as int),
{
    if d == 0 { '0' }
    else if d == 1 { '1' }
    else if d == 2 { '2' }
    else if d == 3 { '3' }
    else if d == 4 { '4' }
    else if d == 5 { '5' }
    else if d == 6 { '6' }
    else if d == 7 { '7' }
    else if d == 8 { '8' }
    else { '9' }
}

/// Appends the decimal digits of `n` to `out`.
fn write_digits(out: &mut String, n: u32)
    ensures
        final(out)@ == old(out)@ + digits(n as nat),
    decreases n,
{
    if n >= 10 {
        write_digits(out, n / 10);
        push_char(out, digit_of(n % 10));
        proof {
            assert(final(out)@ =~= old(out)@ + digits(n as nat)) by {
                assert(digits(n as nat) == digits((n / 10) as nat) + seq![digit_char((n % 10) as int)]);
            }
        }
    } else {
        push_char(out, digit_of(n));
        proof {
            assert(final(out)@ =~= old(out)@ + digits(n as nat));
        }
    }
}

/// Appends the decimal text of `v` to `out`.
fn write_int(out: &mut String, v: i32)
    ensures
        final(out)@ == old(out)@ + int_text(v as int),
{
    if v < 0 {
        push_char(out, '-');
        let n: u32 = (0i64 - v as i64) as u32;
        write_digits(out, n);
        proof {
            assert(final(out)@ =~= old(out)@ + int_text(v as int));
        }
    } else {
        write_digits(out, v as u32);
    }
}

/// The value of a string of decimal digits.
pub open spec fn decimal(t: Seq<char>) -> int
    decreases t.len(),
{
    if t.len() == 0 {
        0
    } else {
        10 * decimal(t.drop_last()) + ((t.last() as u32) as int - 48)
    }
}

/// The value of an integer literal's text, where it is a non-empty string of
/// decimal digits whose value fits in an `i32`.
pub open spec fn literal_value(t: Seq<char>) -> Option<int> {
    if t.len() > 0 && (forall|i: int| 0 <= i < t.len() ==> is_digit(#[trigger] t[i]))
        && decimal(t) <= i32::MAX {
        Some(decimal(t))
    } else {
        None
    }
}

proof fn lemma_decimal_grows(t: Seq<char>, i: int, j: int)
    requires
        0 <= i <= j <= t.len(),
        forall|k: int| 0 <= k < t.len() ==> is_digit(#[trigger] t[k]),
    ensures
        0 <= decimal(t.take(i)) <= decimal(t.take(j)),
    decreases j,
{
    if j == 0 {
        assert(t.take(0).len() == 0);
    } else {
        let i2 = if i < j { i } else { j - 1 };
        lemma_decimal_grows(t, i2, j - 1);
        assert(t.take(j).drop_last() =~= t.take(j - 1));
        assert(t.take(j).last() == t[j - 1]);
    }
}

/// Parses the text of an integer literal into an `i32`.
pub fn parse_literal(text: &str) -> (r: Option<i32>)
    ensures
        r matches Some(v) ==> literal_value(text@) == Some(v as int),
        r is None ==> literal_value(text@) is None,
{
    let cs = chars_of(text);
    let ghost t = text@;
    if cs.len() == 0 {
        return None;
    }
    let mut acc: i64 = 0;
    let mut i: usize = 0;
    while i < cs.len()
        invariant
            cs@ == t,
            t == text@,
            i <= cs.len(),
            acc == decimal(t.take(i as int)),
            0 <= acc <= i32::MAX,
            forall|k: int| 0 <= k < i ==> is_digit(#[trigger] t[k]),
        decreases cs.len() - i,
    {
        let c = cs[i];
        if !crate::token::digit(c) {
            assert(t[i as int] == c);
            assert(!is_digit(t[i as int]));
            return None;
        }
        assert(t.take(i + 1).drop_last() =~= t.take(i as int));
        assert(t.take(i + 1).last() == c);
        acc = acc * 10 + (c as u32 - 48) as i64;
        i += 1;
        if acc > i32::MAX as i64 {
            let mut k: usize = i;
            while k < cs.len()
                invariant
                    cs@ == t,
                    t == text@,
            t == text@,
                    i <= k <= cs.len(),
                    acc == decimal(t.take(i as int)),
                    acc > i32::MAX,
                    forall|m: int| 0 <= m < k ==> is_digit(#[trigger] t[m]),
                decreases cs.len() - k,
            {
                if !crate::token::digit(cs[k]) {
                    assert(!is_digit(t[k as int]));
                    return None;
                }
                k += 1;
            }
            proof {
                lemma_decimal_grows(t, i as int, t.len() as int);
                assert(t.take(t.len() as int) =~= t);
            }
            return None;
        }
    }
    proof {
        assert(t.take(t.len() as int) =~= t);
    }
    Some(acc as i32)
}

} // verus!
