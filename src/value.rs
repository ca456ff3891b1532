use vstd::prelude::*;

verus! {

use vstd::string::*;

broadcast use vstd::std_specs::vec::group_vec_axioms, vstd::seq::group_seq_axioms;

/// The mathematical model of a runtime value.
pub enum Val {
    Num(int),
    Text(Seq<char>),
    List(Seq<Val>),
    Func(Seq<Seq<char>>, Seq<char>),
}

/// A runtime value of the language.
#[derive(Debug, PartialEq)]
pub enum Value {
    /// A signed 64-bit integer.
    Number(i64),
    /// An owned character sequence; also the carrier of value-level errors.
    Text(String),
    /// A heterogeneous array, never shared between bindings.
    Array(Vec<Value>),
    /// A function literal: its parameter names and the source text of its body.
    Function(Vec<String>, String),
}

pub open spec fn views(s: Seq<Value>) -> Seq<Val>
    decreases s, 0nat,
{
    if s.len() == 0 {
        Seq::empty()
    } else {
        views(s.subrange(0, s.len() - 1)).push(s[s.len() - 1].view_at())
    }
}

pub open spec fn texts(s: Seq<String>) -> Seq<Seq<char>> {
    s.map_values(|t: String| t@)
}

impl Value {
    pub open spec fn view_at(&self) -> Val
        decreases self, 1nat,
    {
        match self {
            Value::Number(n) => Val::Num(*n as int),
            Value::Text(s) => Val::Text(s@),
            Value::Array(v) => Val::List(views(v@)),
            Value::Function(ps, b) => Val::Func(texts(ps@), b@),
        }
    }
}

impl View for Value {
    type V = Val;

    open spec fn view(&self) -> Val {
        self.view_at()
    }
}

/// The decimal digit character for `d` (below 10).
pub open spec fn digit(d: int) -> char {
    "0123456789"@[d]
}

/// Decimal digits of a natural number, most significant first.
pub open spec fn digits(n: nat) -> Seq<char>
    decreases n,
{
    if n < 10 {
        seq![digit(n as int)]
    } else {
        digits(n / 10).push(digit((n % 10) as int))
    }
}

/// Decimal rendering of an integer, with a leading `-` when negative.
pub open spec fn int_text(n: int) -> Seq<char> {
    if n < 0 {
        seq!['-'] + digits((-n) as nat)
    } else {
        digits(n as nat)
    }
}

/// Display form of a value.
pub open spec fn show(v: Val) -> Seq<char>
    decreases v, 1nat,
{
    match v {
        Val::Num(n) => int_text(n),
        Val::Text(s) => s,
        Val::List(items) => "[ "@ + show_items(items) + " ]"@,
        Val::Func(ps, _) => "Function("@ + join_lines(ps) + ")"@,
    }
}

/// Display forms of `items`, separated by single spaces.
pub open spec fn show_items(items: Seq<Val>) -> Seq<char>
    decreases items, 0nat,
{
    if items.len() == 0 {
        Seq::empty()
    } else if items.len() == 1 {
        show(items[0])
    } else {
        show_items(items.subrange(0, items.len() - 1)) + " "@ + show(items[items.len() - 1])
    }
}

/// The texts of `ps`, separated by line breaks.
pub open spec fn join_lines(ps: Seq<Seq<char>>) -> Seq<char>
    decreases ps.len(),
{
    if ps.len() == 0 {
        Seq::empty()
    } else if ps.len() == 1 {
        ps[0]
    } else {
        join_lines(ps.subrange(0, ps.len() - 1)) + "\n"@ + ps[ps.len() - 1]
    }
}

/// The models of a sequence of values, element by element.
pub proof fn lemma_views(s: Seq<Value>)
    ensures
        views(s).len() == s.len(),
        forall|i: int| 0 <= i < s.len() ==> #[trigger] views(s)[i] == s[i]@,
    decreases s.len(),
{
    if s.len() > 0 {
        lemma_views(s.subrange(0, s.len() - 1));
    }
}

/// Appends the decimal digits of `m` to `out`.
fn push_digits(m: u64, out: &mut String)
    ensures
        final(out)@ == old(out)@ + digits(m as nat),
    decreases m,
{
    if m >= 10 {
        push_digits(m / 10, out);
    }
    let d: usize = (m % 10) as usize;
    proof {
        reveal_strlit("0123456789");
    }
    let one = "0123456789".substring_char(d, d + 1);
    proof {
        assert(one@ =~= seq![digit(d as int)]);
    }
    out.append(one);
    proof {
        if m >= 10 {
            assert(final(out)@ =~= old(out)@ + digits(m as nat));
        } else {
            assert(final(out)@ =~= old(out)@ + digits(m as nat));
        }
    }
}

/// Decimal rendering of `n`.
pub fn int_to_text(n: i64) -> (r: String)
    ensures
        r@ == int_text(n as int),
{
    let mut out = String::new();
    if n < 0 {
        out.append("-");
        let m: u64 = ((-(n + 1)) as u64) + 1;
        push_digits(m, &mut out);
        proof {
            reveal_strlit("-");
            assert(out@ =~= int_text(n as int));
        }
    } else {
        push_digits(n as u64, &mut out);
        proof {
            assert(out@ =~= int_text(n as int));
        }
    }
    out
}

/// Copies of the texts in `ps`.
pub fn copy_texts(ps: &Vec<String>) -> (r: Vec<String>)
    ensures
        texts(r@) == texts(ps@),
{
    let mut names: Vec<String> = Vec::new();
    let mut i: usize = 0;
    while i < ps.len()
        invariant
            0 <= i <= ps.len(),
            names@.len() == i,
            forall|j: int| 0 <= j < i ==> #[trigger] names@[j]@ == ps@[j]@,
        decreases ps.len() - i,
    {
        names.push(ps[i].clone());
        i = i + 1;
    }
    assert(texts(names@) =~= texts(ps@));
    names
}

impl Value {
    /// The display form: digits, raw text, `[ a b c ]`, or a function label.
    pub fn display(&self) -> (r: String)
        ensures
            r@ == show(self@),
        decreases self,
    {
        match self {
            Value::Number(n) => int_to_text(*n),
            Value::Text(s) => s.clone(),
            Value::Array(v) => {
                let mut out = String::new();
                out.append("[ ");
                let mut i: usize = 0;
                proof {
                    lemma_views(v@);
                    assert(views(v@).subrange(0, 0) =~= Seq::<Val>::empty());
                    assert(out@ =~= "[ "@ + show_items(views(v@).subrange(0, 0)));
                }
                while i < v.len()
                    invariant
                        0 <= i <= v.len(),
                        *self == Value::Array(*v),
                        views(v@).len() == v@.len(),
                        forall|j: int| 0 <= j < v@.len() ==> #[trigger] views(v@)[j] == v@[j]@,
                        out@ == "[ "@ + show_items(views(v@).subrange(0, i as int)),
                    decreases v.len() - i,
                {
                    proof {
                        assert(decreases_to!(*self => self->Array_0));
                        assert(decreases_to!(self->Array_0 => v[i as int]));
                    }
                    let piece = v[i].display();
                    let ghost before = views(v@).subrange(0, i as int);
                    let ghost after = views(v@).subrange(0, i as int + 1);
                    assert(after.subrange(0, after.len() - 1) =~= before);
                    if i > 0 {
                        out.append(" ");
                    }
                    out.append(piece.as_str());
                    proof {
                        if i > 0 {
                            assert(out@ =~= "[ "@ + show_items(after));
                        } else {
                            assert(before.len() == 0);
                            assert(out@ =~= "[ "@ + show_items(after));
                        }
                    }
                    i = i + 1;
                }
                out.append(" ]");
                proof {
                    assert(views(v@).subrange(0, v@.len() as int) =~= views(v@));
                }
                out
            },
            Value::Function(ps, _) => {
                let mut out = String::new();
                out.append("Function(");
                let mut i: usize = 0;
                proof {
                    assert(texts(ps@).subrange(0, 0) =~= Seq::<Seq<char>>::empty());
                    assert(out@ =~= "Function("@ + join_lines(texts(ps@).subrange(0, 0)));
                }
                while i < ps.len()
                    invariant
                        0 <= i <= ps.len(),
                        out@ == "Function("@ + join_lines(texts(ps@).subrange(0, i as int)),
                    decreases ps.len() - i,
                {
                    let ghost before = texts(ps@).subrange(0, i as int);
                    let ghost after = texts(ps@).subrange(0, i as int + 1);
                    assert(after.subrange(0, after.len() - 1) =~= before);
                    if i > 0 {
                        out.append("\n");
                    }
                    out.append(ps[i].as_str());
                    proof {
                        assert(out@ =~= "Function("@ + join_lines(after));
                    }
                    i = i + 1;
                }
                out.append(")");
                proof {
                    assert(texts(ps@).subrange(0, ps@.len() as int) =~= texts(ps@));
                }
                out
            },
        }
    }

    /// An independent copy, arrays included.
    pub fn copy(&self) -> (r: Value)
        ensures
            r@ == self@,
        decreases self,
    {
        match self {
            Value::Number(n) => Value::Number(*n),
            Value::Text(s) => Value::Text(s.clone()),
            Value::Array(v) => {
                let mut items: Vec<Value> = Vec::new();
                let mut i: usize = 0;
                proof {
                    lemma_views(v@);
                }
                while i < v.len()
                    invariant
                        0 <= i <= v.len(),
                        *self == Value::Array(*v),
                        items@.len() == i,
                        views(v@).len() == v@.len(),
                        forall|j: int| 0 <= j < v@.len() ==> #[trigger] views(v@)[j] == v@[j]@,
                        forall|j: int| 0 <= j < i ==> #[trigger] items@[j]@ == v@[j]@,
                    decreases v.len() - i,
                {
                    proof {
                        assert(decreases_to!(*self => self->Array_0));
                        assert(decreases_to!(self->Array_0 => v[i as int]));
                    }
                    let c = v[i].copy();
                    items.push(c);
                    i = i + 1;
                }
                proof {
                    lemma_views(items@);
                    assert(views(items@) =~= views(v@));
                }
                Value::Array(items)
            },
            Value::Function(ps, b) => {
                let names = copy_texts(ps);
                Value::Function(names, b.clone())
            },
        }
    }
}

} // verus!
