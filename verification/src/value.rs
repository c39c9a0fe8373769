//! The parsed value tree and its canonical compact rendering.
//!
//! A [`JsonValue`] owns its children; object members keep their source
//! order, and duplicate keys are both retained.  Numbers hold the numeral
//! exactly as it stood in the source, so rendering reproduces it verbatim.

use vstd::prelude::*;

verus! {

// ---------------------------------------------------------------------------
// The mathematical value tree
// ---------------------------------------------------------------------------

/// The mathematical form of a parsed value: text as character sequences,
/// containers as sequences.
pub enum SpecValue {
    Null,
    Boolean(bool),
    Number(Seq<char>),
    Str(Seq<char>),
    Array(Seq<SpecValue>),
    Object(Seq<(Seq<char>, SpecValue)>),
    Empty,
}

// ---------------------------------------------------------------------------
// The executable value tree
// ---------------------------------------------------------------------------

/// A parsed JSON value.  `Empty` is the sentinel produced when a closing
/// bracket or brace is read where a value was expected; it renders as the
/// empty string.
#[derive(Debug, PartialEq)]
pub enum JsonValue {
    Null,
    Boolean(bool),
    /// The numeral as it stood in the source, for instance `"1920"`.
    Number(String),
    /// The text between the quotes, escape sequences kept verbatim.
    Str(String),
    Array(JsonArray),
    Object(JsonObject),
    Empty,
}

/// An ordered sequence of key/value members; duplicate keys are kept.
#[derive(Debug, PartialEq)]
pub struct JsonObject {
    pub children: Vec<KeyValue>,
}

/// One object member.
#[derive(Debug, PartialEq)]
pub struct KeyValue {
    pub key: String,
    pub value: JsonValue,
}

/// An ordered sequence of array elements.
#[derive(Debug, PartialEq)]
pub struct JsonArray {
    pub array: Vec<JsonValue>,
}

// ---------------------------------------------------------------------------
// Views
// ---------------------------------------------------------------------------

/// The mathematical value a [`JsonValue`] stands for.
pub open spec fn spec_value_of(v: JsonValue) -> SpecValue
    decreases v,
{
    match v {
        JsonValue::Null => SpecValue::Null,
        JsonValue::Boolean(b) => SpecValue::Boolean(b),
        JsonValue::Number(x) => SpecValue::Number(x@),
        JsonValue::Str(s) => SpecValue::Str(s@),
        JsonValue::Array(a) => SpecValue::Array(spec_values_of(a.array@)),
        JsonValue::Object(o) => SpecValue::Object(spec_pairs_of(o.children@)),
        JsonValue::Empty => SpecValue::Empty,
    }
}

/// Element-wise view of a sequence of values.
pub open spec fn spec_values_of(s: Seq<JsonValue>) -> Seq<SpecValue>
    decreases s,
{
    if s.len() == 0 {
        Seq::empty()
    } else {
        spec_values_of(s.subrange(0, s.len() - 1)).push(spec_value_of(s[s.len() - 1]))
    }
}

/// Element-wise view of a sequence of members.
pub open spec fn spec_pairs_of(s: Seq<KeyValue>) -> Seq<(Seq<char>, SpecValue)>
    decreases s,
{
    if s.len() == 0 {
        Seq::empty()
    } else {
        spec_pairs_of(s.subrange(0, s.len() - 1)).push(
            (s[s.len() - 1].key@, spec_value_of(s[s.len() - 1].value)),
        )
    }
}

impl View for JsonValue {
    type V = SpecValue;

    open spec fn view(&self) -> SpecValue {
        spec_value_of(*self)
    }
}

impl View for JsonArray {
    type V = Seq<SpecValue>;

    open spec fn view(&self) -> Seq<SpecValue> {
        spec_values_of(self.array@)
    }
}

impl View for JsonObject {
    type V = Seq<(Seq<char>, SpecValue)>;

    open spec fn view(&self) -> Seq<(Seq<char>, SpecValue)> {
        spec_pairs_of(self.children@)
    }
}

impl View for KeyValue {
    type V = (Seq<char>, SpecValue);

    open spec fn view(&self) -> (Seq<char>, SpecValue) {
        (self.key@, spec_value_of(self.value))
    }
}

/// The view of a value sequence has the same length and views each
/// element in place.
pub proof fn lemma_values_of(s: Seq<JsonValue>)
    ensures
        spec_values_of(s).len() == s.len(),
        forall|i: int| 0 <= i < s.len() ==> #[trigger] spec_values_of(s)[i] == spec_value_of(s[i]),
    decreases s.len(),
{
    if s.len() > 0 {
        lemma_values_of(s.subrange(0, s.len() - 1));
    }
}

/// The view of a member sequence has the same length and views each
/// member in place.
pub proof fn lemma_pairs_of(s: Seq<KeyValue>)
    ensures
        spec_pairs_of(s).len() == s.len(),
        forall|i: int| 0 <= i < s.len() ==> #[trigger] spec_pairs_of(s)[i] == (
            s[i].key@,
            spec_value_of(s[i].value),
        ),
    decreases s.len(),
{
    if s.len() > 0 {
        lemma_pairs_of(s.subrange(0, s.len() - 1));
    }
}

// ---------------------------------------------------------------------------
// Lookup and downcast helpers
// ---------------------------------------------------------------------------

/// First-match lookup: the value of the first member whose key equals
/// `key`, if any.
pub open spec fn spec_lookup(ps: Seq<(Seq<char>, SpecValue)>, key: Seq<char>) -> Option<SpecValue>
    decreases ps.len(),
{
    if ps.len() == 0 {
        None
    } else if ps[0].0 == key {
        Some(ps[0].1)
    } else {
        spec_lookup(ps.subrange(1, ps.len() as int), key)
    }
}

impl JsonObject {
    /// The value of the first member keyed `str`, if any; later members
    /// with the same key are shadowed.
    pub fn get_by_key(&self, str: &str) -> (r: Option<&JsonValue>)
        ensures
            match r {
                Some(v) => spec_lookup(self@, str@) == Some(v@),
                None => spec_lookup(self@, str@) is None,
            },
    {
        proof {
            lemma_pairs_of(self.children@);
        }
        let key: String = str.to_owned();
        let n: usize = self.children.len();
        proof {
            assert(self@.subrange(0, n as int) =~= self@);
        }
        let mut i: usize = 0;
        while i < n
            invariant
                i <= n,
                n == self.children.len(),
                key@ == str@,
                spec_pairs_of(self.children@).len() == n,
                forall|t: int| 0 <= t < n ==> #[trigger] spec_pairs_of(self.children@)[t] == (
                    self.children@[t].key@,
                    spec_value_of(self.children@[t].value),
                ),
                spec_lookup(self@, str@) == spec_lookup(
                    self@.subrange(i as int, n as int),
                    str@,
                ),
            decreases n - i,
        {
            let ghost suffix = self@.subrange(i as int, n as int);
            assert(suffix[0] == (self.children@[i as int].key@, spec_value_of(
                self.children@[i as int].value,
            )));
            if self.children[i].key == key {
                return Some(&self.children[i].value);
            }
            proof {
                assert(suffix.subrange(1, suffix.len() as int) =~= self@.subrange(
                    i + 1,
                    n as int,
                ));
            }
            i = i + 1;
        }
        proof {
            assert(self@.subrange(n as int, n as int) =~= Seq::<(Seq<char>, SpecValue)>::empty());
        }
        None
    }
}

impl JsonValue {
    /// The contained array, if this value is one.
    pub fn try_as_array(&self) -> (r: Option<&JsonArray>)
        ensures
            match r {
                Some(a) => self@ == SpecValue::Array(a@),
                None => !(self@ is Array),
            },
    {
        match self {
            JsonValue::Array(array) => Some(array),
            _ => None,
        }
    }
}

// ---------------------------------------------------------------------------
// Canonical compact rendering, specified
// ---------------------------------------------------------------------------

/// The canonical compact text of a value: no whitespace, numerals and
/// string contents verbatim, `Empty` as the empty string.
pub open spec fn spec_render(v: SpecValue) -> Seq<char>
    decreases v,
{
    match v {
        SpecValue::Null => seq!['n', 'u', 'l', 'l'],
        SpecValue::Boolean(b) => if b {
            seq!['t', 'r', 'u', 'e']
        } else {
            seq!['f', 'a', 'l', 's', 'e']
        },
        SpecValue::Number(x) => x,
        SpecValue::Str(c) => seq!['"'] + c + seq!['"'],
        SpecValue::Array(vs) => seq!['['] + spec_render_elems(vs) + seq![']'],
        SpecValue::Object(ps) => seq!['{'] + spec_render_pairs(ps) + seq!['}'],
        SpecValue::Empty => Seq::empty(),
    }
}

/// Array elements joined by commas.
pub open spec fn spec_render_elems(vs: Seq<SpecValue>) -> Seq<char>
    decreases vs,
{
    if vs.len() == 0 {
        Seq::empty()
    } else if vs.len() == 1 {
        spec_render(vs[0])
    } else {
        spec_render(vs[0]) + seq![','] + spec_render_elems(vs.subrange(1, vs.len() as int))
    }
}

/// One `"key":value` member.
pub open spec fn spec_render_pair(p: (Seq<char>, SpecValue)) -> Seq<char>
    decreases p,
{
    seq!['"'] + p.0 + seq!['"', ':'] + spec_render(p.1)
}

/// Object members joined by commas.
pub open spec fn spec_render_pairs(ps: Seq<(Seq<char>, SpecValue)>) -> Seq<char>
    decreases ps,
{
    if ps.len() == 0 {
        Seq::empty()
    } else if ps.len() == 1 {
        spec_render_pair(ps[0])
    } else {
        spec_render_pair(ps[0]) + seq![','] + spec_render_pairs(ps.subrange(1, ps.len() as int))
    }
}

/// Appending one element to a non-empty list appends one comma and its
/// rendering; to an empty list, just its rendering.
pub proof fn lemma_render_elems_push(vs: Seq<SpecValue>, v: SpecValue)
    ensures
        spec_render_elems(vs.push(v)) == if vs.len() == 0 {
            spec_render(v)
        } else {
            spec_render_elems(vs) + seq![','] + spec_render(v)
        },
    decreases vs.len(),
{
    let w = vs.push(v);
    if vs.len() == 0 {
        assert(w.len() == 1 && w[0] == v);
        assert(spec_render_elems(w) == spec_render(v));
    } else if vs.len() == 1 {
        assert(w.subrange(1, 2) =~= seq![v]);
        assert(spec_render_elems(seq![v]) == spec_render(v));
        assert(w[0] == vs[0]);
        assert(spec_render_elems(w) == spec_render(vs[0]) + seq![','] + spec_render(v));
        assert(spec_render_elems(vs) == spec_render(vs[0]));
    } else {
        let tail = vs.subrange(1, vs.len() as int);
        lemma_render_elems_push(tail, v);
        assert(w[0] == vs[0]);
        assert(w.len() == vs.len() + 1);
        assert(w.subrange(1, w.len() as int) =~= tail.push(v));
        assert(spec_render(vs[0]) + seq![','] + (spec_render_elems(tail) + seq![',']
            + spec_render(v)) =~= (spec_render(vs[0]) + seq![','] + spec_render_elems(tail))
            + seq![','] + spec_render(v));
    }
}

/// The member-list analogue of [`lemma_render_elems_push`].
pub proof fn lemma_render_pairs_push(ps: Seq<(Seq<char>, SpecValue)>, p: (Seq<char>, SpecValue))
    ensures
        spec_render_pairs(ps.push(p)) == if ps.len() == 0 {
            spec_render_pair(p)
        } else {
            spec_render_pairs(ps) + seq![','] + spec_render_pair(p)
        },
    decreases ps.len(),
{
    let w = ps.push(p);
    if ps.len() == 0 {
        assert(w.len() == 1 && w[0] == p);
        assert(spec_render_pairs(w) == spec_render_pair(p));
    } else if ps.len() == 1 {
        assert(w.subrange(1, 2) =~= seq![p]);
        assert(spec_render_pairs(seq![p]) == spec_render_pair(p));
        assert(w[0] == ps[0]);
        assert(spec_render_pairs(w) == spec_render_pair(ps[0]) + seq![','] + spec_render_pair(p));
        assert(spec_render_pairs(ps) == spec_render_pair(ps[0]));
    } else {
        let tail = ps.subrange(1, ps.len() as int);
        lemma_render_pairs_push(tail, p);
        assert(w[0] == ps[0]);
        assert(w.len() == ps.len() + 1);
        assert(w.subrange(1, w.len() as int) =~= tail.push(p));
        assert(spec_render_pair(ps[0]) + seq![','] + (spec_render_pairs(tail) + seq![',']
            + spec_render_pair(p)) =~= (spec_render_pair(ps[0]) + seq![','] + spec_render_pairs(
            tail,
        )) + seq![','] + spec_render_pair(p));
    }
}

// ---------------------------------------------------------------------------
// Executable rendering
// ---------------------------------------------------------------------------

impl JsonValue {
    /// Renders the value as compact JSON text, exactly as
    /// [`spec_render`] describes.
    pub fn render(&self) -> (r: String)
        ensures
            r@ == spec_render(self@),
        decreases self,
    {
        match self {
            JsonValue::Null => {
                let r: String = "null".to_owned();
                proof {
                    reveal_strlit("null");
                    assert(r@ =~= seq!['n', 'u', 'l', 'l']);
                }
                r
            },
            JsonValue::Boolean(b) => {
                if *b {
                    let r: String = "true".to_owned();
                    proof {
                        reveal_strlit("true");
                        assert(r@ =~= seq!['t', 'r', 'u', 'e']);
                    }
                    r
                } else {
                    let r: String = "false".to_owned();
                    proof {
                        reveal_strlit("false");
                        assert(r@ =~= seq!['f', 'a', 'l', 's', 'e']);
                    }
                    r
                }
            },
            JsonValue::Number(x) => x.clone(),
            JsonValue::Str(c) => {
                let mut out: String = String::new();
                out.append("\"");
                out.append(c.as_str());
                out.append("\"");
                proof {
                    reveal_strlit("\"");
                    assert(out@ =~= seq!['"'] + c@ + seq!['"']);
                }
                out
            },
            JsonValue::Array(a) => a.render(),
            JsonValue::Object(o) => o.render(),
            JsonValue::Empty => String::new(),
        }
    }
}

impl JsonArray {
    /// Renders `[elem,...]` with the elements in order.
    pub fn render(&self) -> (r: String)
        ensures
            r@ == seq!['['] + spec_render_elems(self@) + seq![']'],
        decreases self,
    {
        let ghost vs = self@;
        proof {
            lemma_values_of(self.array@);
        }
        let mut out: String = String::new();
        out.append("[");
        proof {
            reveal_strlit("[");
            assert(vs.subrange(0, 0) =~= Seq::<SpecValue>::empty());
            assert(out@ =~= seq!['['] + spec_render_elems(vs.subrange(0, 0)));
        }
        let n: usize = self.array.len();
        let mut k: usize = 0;
        while k < n
            invariant
                k <= n,
                n == self.array.len(),
                vs == self@,
                vs.len() == n,
                forall|i: int| 0 <= i < n ==> #[trigger] vs[i] == spec_value_of(self.array@[i]),
                out@ == seq!['['] + spec_render_elems(vs.subrange(0, k as int)),
            decreases n - k,
        {
            let ghost done = vs.subrange(0, k as int);
            if k > 0 {
                out.append(",");
                proof {
                    reveal_strlit(",");
                }
            }
            let piece: String = self.array[k].render();
            out.append(piece.as_str());
            proof {
                assert(vs.subrange(0, k + 1) =~= done.push(vs[k as int]));
                lemma_render_elems_push(done, vs[k as int]);
                assert(out@ =~= seq!['['] + spec_render_elems(vs.subrange(0, k + 1)));
            }
            k = k + 1;
        }
        out.append("]");
        proof {
            reveal_strlit("]");
            assert(vs.subrange(0, n as int) =~= vs);
            assert(out@ =~= seq!['['] + spec_render_elems(vs) + seq![']']);
        }
        out
    }
}

impl JsonObject {
    /// Renders `{"key":value,...}` with the members in order.
    pub fn render(&self) -> (r: String)
        ensures
            r@ == seq!['{'] + spec_render_pairs(self@) + seq!['}'],
        decreases self,
    {
        let ghost ps = self@;
        proof {
            lemma_pairs_of(self.children@);
        }
        let mut out: String = String::new();
        out.append("{");
        proof {
            reveal_strlit("{");
            assert(ps.subrange(0, 0) =~= Seq::<(Seq<char>, SpecValue)>::empty());
            assert(out@ =~= seq!['{'] + spec_render_pairs(ps.subrange(0, 0)));
        }
        let n: usize = self.children.len();
        let mut k: usize = 0;
        while k < n
            invariant
                k <= n,
                n == self.children.len(),
                ps == self@,
                ps.len() == n,
                forall|i: int| 0 <= i < n ==> #[trigger] ps[i] == (
                    self.children@[i].key@,
                    spec_value_of(self.children@[i].value),
                ),
                out@ == seq!['{'] + spec_render_pairs(ps.subrange(0, k as int)),
            decreases n - k,
        {
            let ghost done = ps.subrange(0, k as int);
            if k > 0 {
                out.append(",");
                proof {
                    reveal_strlit(",");
                }
            }
            out.append("\"");
            out.append(self.children[k].key.as_str());
            out.append("\"");
            out.append(":");
            let piece: String = self.children[k].value.render();
            out.append(piece.as_str());
            proof {
                reveal_strlit("\"");
                reveal_strlit(":");
                assert(ps.subrange(0, k + 1) =~= done.push(ps[k as int]));
                lemma_render_pairs_push(done, ps[k as int]);
                assert(seq!['"'] + self.children@[k as int].key@ + seq!['"', ':'] + piece@
                    =~= spec_render_pair(ps[k as int]));
                assert(out@ =~= seq!['{'] + spec_render_pairs(ps.subrange(0, k + 1)));
            }
            k = k + 1;
        }
        out.append("}");
        proof {
            reveal_strlit("}");
            assert(ps.subrange(0, n as int) =~= ps);
            assert(out@ =~= seq!['{'] + spec_render_pairs(ps) + seq!['}']);
        }
        out
    }
}

} // verus!
