use vstd::prelude::*;

use crate::tree::Tree;

verus! {

/// A structural input value, as handed over by the external parser: an atom
/// carrying its textual form, or a list of values.
pub enum SexpValue {
    Atom(String),
    List(Vec<SexpValue>),
}

/// Why source text yielded no tree.
#[derive(Debug)]
pub enum ParseError {
    /// The text is not a well-formed structural value; holds the parser's
    /// description of the failure.
    Syntax(String),
    /// The text contains an empty list, which names no node.
    EmptyList,
}

/// No list anywhere in the value is empty: an empty list has no element to
/// take a label from and stands for no node.
pub open spec fn no_empty_list(v: SexpValue) -> bool
    decreases v, 0int,
{
    match v {
        SexpValue::Atom(_) => true,
        SexpValue::List(vs) => vs@.len() > 0 && all_no_empty_list(vs@, 0),
    }
}

/// Every element of the list from index `i` on contains no empty list.
pub open spec fn all_no_empty_list(s: Seq<SexpValue>, i: int) -> bool
    decreases s, s.len() - i,
{
    if i < 0 || i >= s.len() {
        true
    } else {
        no_empty_list(s[i]) && all_no_empty_list(s, i + 1)
    }
}

/// The label a headless list (one whose first element is itself a list) gets.
pub open spec fn placeholder_label() -> Seq<char> {
    "<\u{b7}\u{b7}\u{b7}>"@
}

/// The tree a structural value converts to: an atom becomes a leaf labeled
/// by its text; a list whose first element is an atom becomes a node labeled
/// by that text with the remaining elements as children; any other list
/// becomes a node with the placeholder label and all elements as children.
pub open spec fn is_tree_of(v: SexpValue, t: Tree) -> bool
    decreases v, 0int,
{
    match v {
        SexpValue::Atom(s) => t.label@ == s@ && t.children@.len() == 0,
        SexpValue::List(vs) => {
            if vs@.len() > 0 && vs@[0] is Atom {
                &&& t.label@ == vs@[0]->Atom_0@
                &&& t.children@.len() == vs@.len() - 1
                &&& are_trees_of(vs@, 1, t.children@)
            } else {
                &&& t.label@ == placeholder_label()
                &&& t.children@.len() == vs@.len()
                &&& are_trees_of(vs@, 0, t.children@)
            }
        },
    }
}

/// The trees `cs` convert, element for element, the values
/// `vs[start .. start + cs.len()]`.
pub open spec fn are_trees_of(vs: Seq<SexpValue>, start: int, cs: Seq<Tree>) -> bool
    decreases vs, cs.len(),
{
    if cs.len() == 0 {
        true
    } else {
        &&& 0 <= start
        &&& start + cs.len() <= vs.len()
        &&& are_trees_of(vs, start, cs.drop_last())
        &&& is_tree_of(vs[start + cs.len() - 1], cs.last())
    }
}

/// Decide whether a structural value contains no empty list.
pub fn check_no_empty_list(v: &SexpValue) -> (r: bool)
    ensures
        r == no_empty_list(*v),
    decreases *v,
{
    match v {
        SexpValue::Atom(_) => true,
        SexpValue::List(vs) => {
            if vs.len() == 0 {
                return false;
            }
            let n = vs.len();
            let mut i: usize = 0;
            while i < n
                invariant
                    n == vs@.len(),
                    i <= n,
                    *v == SexpValue::List(*vs),
                    all_no_empty_list(vs@, 0) == all_no_empty_list(vs@, i as int),
                decreases n - i,
            {
                proof {
                    assert(decreases_to!(*v => (*v)->List_0));
                    assert(decreases_to!(*v => vs@[i as int]));
                }
                if !check_no_empty_list(&vs[i]) {
                    return false;
                }
                i = i + 1;
            }
            true
        },
    }
}

impl Tree {
    /// Convert a well-formed structural value into the tree it stands for.
    pub fn from_sexp(v: &SexpValue) -> (t: Tree)
        requires
            no_empty_list(*v),
        ensures
            is_tree_of(*v, t),
        decreases *v,
    {
        match v {
            SexpValue::Atom(s) => Tree { label: s.clone(), children: Vec::new() },
            SexpValue::List(vs) => {
                let (label, start): (String, usize) = match &vs[0] {
                    SexpValue::Atom(s) => (s.clone(), 1),
                    SexpValue::List(_) => ("<\u{b7}\u{b7}\u{b7}>".to_owned(), 0),
                };
                let n = vs.len();
                let mut children: Vec<Tree> = Vec::new();
                let mut i: usize = start;
                while i < n
                    invariant
                        no_empty_list(*v),
                        *v == SexpValue::List(*vs),
                        n == vs@.len(),
                        start <= 1,
                        start <= i <= n,
                        children@.len() == i - start,
                        are_trees_of(vs@, start as int, children@),
                    decreases n - i,
                {
                    proof {
                        assert(decreases_to!(*v => (*v)->List_0));
                        assert(decreases_to!(*v => vs@[i as int]));
                        lemma_all_no_empty_list_at(vs@, 0, i as int);
                    }
                    let ghost before = children@;
                    let c = Tree::from_sexp(&vs[i]);
                    children.push(c);
                    proof {
                        assert(children@.drop_last() =~= before);
                    }
                    i = i + 1;
                }
                Tree { label, children }
            },
        }
    }
}

/// If every element from `i` on is free of empty lists, so is the element at
/// any index from `i` on.
pub proof fn lemma_all_no_empty_list_at(s: Seq<SexpValue>, i: int, j: int)
    requires
        0 <= i <= j < s.len(),
        all_no_empty_list(s, i),
    ensures
        no_empty_list(s[j]),
    decreases j - i,
{
    if i < j {
        lemma_all_no_empty_list_at(s, i + 1, j);
    }
}

/// Relies on the shape of sexp::Sexp and sexp::Atom: rebuilds the parser's
/// value with every atom replaced by its textual form (string atoms keep
/// their text; integer and float atoms are rendered the way they display).
#[verifier::external_body]
fn sexp_to_value(s: sexp::Sexp) -> (v: SexpValue) {
    match s {
        sexp::Sexp::Atom(sexp::Atom::S(t)) => SexpValue::Atom(t),
        sexp::Sexp::Atom(sexp::Atom::I(i)) => SexpValue::Atom(i.to_string()),
        sexp::Sexp::Atom(sexp::Atom::F(d)) => SexpValue::Atom(d.to_string()),
        sexp::Sexp::List(l) => SexpValue::List(l.into_iter().map(sexp_to_value).collect()),
    }
}

/// Opaque declaration of the external parser's value type, so that it can
/// pass through signatures; nothing is assumed about its contents.
#[verifier::external_type_specification]
#[verifier::external_body]
pub struct ExSexp(sexp::Sexp);

/// Opaque declaration of the external parser's error type.
#[verifier::external_type_specification]
#[verifier::external_body]
pub struct ExSexpError(sexp::Error);

/// Whether the external parser accepts the text: it decides by the
/// characters alone.
pub uninterp spec fn parse_ok_of(s: Seq<char>) -> bool;

/// The structural value the external parser produces for accepted text, with
/// every atom replaced by its textual form: a function of the characters
/// alone.
pub uninterp spec fn parse_value_of(s: Seq<char>) -> SexpValue;

/// Relies on sexp::parse and on the shape of sexp::Sexp and sexp::Atom: the
/// parser reads nothing but the text, so whether it accepts, and the value
/// it produces when it does (here with every atom replaced by its textual
/// form), are functions of the characters alone.
#[verifier::external_body]
fn parse_outside(s: &str) -> (r: Result<SexpValue, Box<sexp::Error>>)
    ensures
        r is Ok <==> parse_ok_of(s@),
        r matches Ok(v) ==> v == parse_value_of(s@),
{
    sexp::parse(s).map(sexp_to_value)
}

/// Relies on sexp::Error's Display impl: renders the parse failure (line,
/// column and message) as text.
#[verifier::external_body]
fn error_text(e: &sexp::Error) -> (r: String) {
    format!("{}", e)
}

/// Parse source text in the structural format into a tree: a tree comes
/// exactly when the parser accepts the text and its value holds no empty
/// list, and it is exactly the conversion of that value; text the parser
/// rejects gives a syntax error, and an accepted value containing an empty
/// list is rejected as naming no node.
pub fn parse_tree(source: &str) -> (r: Result<Tree, ParseError>)
    ensures
        r is Ok <==> parse_ok_of(source@) && no_empty_list(parse_value_of(source@)),
        r matches Ok(t) ==> is_tree_of(parse_value_of(source@), t),
        (r matches Err(e) && e is Syntax) <==> !parse_ok_of(source@),
        (r matches Err(e) && e is EmptyList) <==> parse_ok_of(source@) && !no_empty_list(
            parse_value_of(source@),
        ),
{
    match parse_outside(source) {
        Err(e) => Err(ParseError::Syntax(error_text(&e))),
        Ok(v) => {
            if check_no_empty_list(&v) {
                Ok(Tree::from_sexp(&v))
            } else {
                Err(ParseError::EmptyList)
            }
        },
    }
}

} // verus!
