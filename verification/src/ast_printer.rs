//! The diagnostic pretty-printer: a fully parenthesized, prefix
//! rendering of an expression tree, `(operator operand operand)`.  It
//! is a debugging notation, not valid source: re-parsing its output is
//! not guaranteed to succeed, and nothing here promises it.

use vstd::prelude::*;
use vstd::string::*;
use crate::parser::Expr;
use crate::text::push_char;

verus! {

/// The rendering of the parts after a group's name: one leading space
/// before each part.
pub open spec fn parts_text(parts: Seq<Seq<char>>) -> Seq<char>
    decreases parts.len(),
{
    if parts.len() == 0 {
        Seq::empty()
    } else {
        seq![' '] + parts[0] + parts_text(parts.drop_first())
    }
}

/// A parenthesized group: `(name part part ...)`.
pub open spec fn paren_text(name: Seq<char>, parts: Seq<Seq<char>>) -> Seq<char> {
    seq!['('] + name + parts_text(parts) + seq![')']
}

/// The prefix rendering of an expression: operators head their
/// operands, groups render as `(group ...)`, the nil literal as
/// `nil`, other literals and variable names as their text.
pub open spec fn pprint(e: Expr) -> Seq<char>
    decreases e,
{
    match e {
        Expr::Binary(b) => paren_text(b.operator.lexeme@, seq![pprint(b.left), pprint(b.right)]),
        Expr::Grouping(g) => paren_text("group"@, seq![pprint(g.expression)]),
        Expr::Literal(l) => match l.value {
            Option::Some(s) => s@,
            Option::None => "nil"@,
        },
        Expr::Unary(u) => paren_text(u.operator.lexeme@, seq![pprint(u.right)]),
        Expr::Variable(v) => v.name.lexeme@,
    }
}

proof fn lemma_parts_push(parts: Seq<Seq<char>>, p: Seq<char>)
    ensures
        parts_text(parts.push(p)) == parts_text(parts) + (seq![' '] + p),
    decreases parts.len(),
{
    if parts.len() == 0 {
        let q = parts.push(p);
        assert(q[0] == p);
        assert(q.drop_first() =~= Seq::<Seq<char>>::empty());
        assert(parts_text(q) == seq![' '] + q[0] + parts_text(q.drop_first()));
        assert(seq![' '] + p + parts_text(Seq::<Seq<char>>::empty()) =~= seq![' '] + p);
        assert(parts_text(parts) + (seq![' '] + p) =~= seq![' '] + p);
    } else {
        assert(parts.push(p).drop_first() =~= parts.drop_first().push(p));
        lemma_parts_push(parts.drop_first(), p);
        assert(parts_text(parts.push(p)) == seq![' '] + parts[0] + (parts_text(parts.drop_first())
            + (seq![' '] + p)));
        assert(seq![' '] + parts[0] + (parts_text(parts.drop_first()) + (seq![' '] + p)) =~= (
        seq![' '] + parts[0] + parts_text(parts.drop_first())) + (seq![' '] + p));
    }
}

pub struct AstPrinter {

}

impl AstPrinter {
    pub fn new() -> (r: AstPrinter)
    {
        AstPrinter {  }
    }

    /// Builds `(name part part ...)` from pre-rendered parts.
    #[verifier::loop_isolation(false)]
    fn parenthesize(&self, name: &str, parts: &Vec<String>) -> (r: String)
        ensures
            r@ == paren_text(name@, parts@.map_values(|p: String| p@)),
    {
        let ghost all = parts@.map_values(|p: String| p@);
        let mut builder = String::new();
        push_char(&mut builder, '(');
        builder.append(name);
        let n = parts.len();
        let mut i: usize = 0;
        proof {
            assert(all.subrange(0, 0) =~= Seq::<Seq<char>>::empty());
            assert(builder@ =~= seq!['('] + name@ + parts_text(all.subrange(0, 0)));
        }
        while i < n
            invariant
                i <= n,
                n == parts@.len(),
                builder@ == seq!['('] + name@ + parts_text(all.subrange(0, i as int)),
            decreases n - i,
        {
            push_char(&mut builder, ' ');
            builder.append(parts[i].as_str());
            proof {
                assert(all.subrange(0, i + 1) =~= all.subrange(0, i as int).push(all[i as int]));
                lemma_parts_push(all.subrange(0, i as int), all[i as int]);
                assert(builder@ =~= seq!['('] + name@ + parts_text(all.subrange(0, i + 1)));
            }
            i += 1;
        }
        push_char(&mut builder, ')');
        proof {
            assert(all.subrange(0, n as int) =~= all);
            assert(builder@ =~= seq!['('] + name@ + parts_text(all) + seq![')']);
        }
        builder
    }

    /// Renders an expression tree, exactly as `pprint` says.
    pub fn print(&self, expr: &Expr) -> (r: String)
        ensures
            r@ == pprint(*expr),
        decreases expr,
    {
        match expr {
            Expr::Binary(b) => {
                let l = self.print(&b.left);
                let rr = self.print(&b.right);
                let mut parts: Vec<String> = Vec::new();
                parts.push(l);
                parts.push(rr);
                let out = self.parenthesize(b.operator.lexeme.as_str(), &parts);
                proof {
                    assert(parts@.map_values(|p: String| p@) =~= seq![
                        pprint(b.left),
                        pprint(b.right),
                    ]);
                }
                out
            },
            Expr::Grouping(g) => {
                let inner = self.print(&g.expression);
                let mut parts: Vec<String> = Vec::new();
                parts.push(inner);
                let out = self.parenthesize("group", &parts);
                proof {
                    assert(parts@.map_values(|p: String| p@) =~= seq![pprint(g.expression)]);
                }
                out
            },
            Expr::Literal(l) => match &l.value {
                Option::Some(s) => s.clone(),
                Option::None => String::from_str("nil"),
            },
            Expr::Unary(u) => {
                let inner = self.print(&u.right);
                let mut parts: Vec<String> = Vec::new();
                parts.push(inner);
                let out = self.parenthesize(u.operator.lexeme.as_str(), &parts);
                proof {
                    assert(parts@.map_values(|p: String| p@) =~= seq![pprint(u.right)]);
                }
                out
            },
            Expr::Variable(v) => v.name.lexeme.clone(),
        }
    }
}

} // verus!
