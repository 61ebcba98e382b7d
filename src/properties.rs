//! Properties, their parameters, and how a property is written as a line.

use vstd::prelude::*;

verus! {

/// The characters of `s`, in order.
pub(crate) fn chars_of(s: &str) -> (r: Vec<char>)
    ensures
        r@ == s@,
{
    let mut r: Vec<char> = Vec::new();
    for c in it: s.chars()
        invariant
            it.seq() == s@,
            r@ == it.seq().subrange(0, it.index() as int),
    {
        r.push(c);
    }
    r
}

/// Relies on collecting an iterator of `char` into a `String`: the same characters, in order.
#[verifier::external_body]
pub(crate) fn string_of(v: &Vec<char>) -> (r: String)
    ensures
        r@ == v@,
{
    v.iter().collect()
}

/// Appends every character of `s` to `out`.
pub(crate) fn push_all(out: &mut Vec<char>, s: &Vec<char>)
    ensures
        final(out)@ == old(out)@ + s@,
{
    let mut i: usize = 0;
    while i < s.len()
        invariant
            i <= s@.len(),
            out@ == old(out)@ + s@.subrange(0, i as int),
        decreases s.len() - i,
    {
        out.push(s[i]);
        i = i + 1;
        assert(s@.subrange(0, i as int) =~= s@.subrange(0, i - 1 as int).push(s@[i - 1]));
    }
    assert(s@.subrange(0, s@.len() as int) =~= s@);
}

/// Appends every character of `s` to `out`.
pub(crate) fn push_str(out: &mut Vec<char>, s: &str)
    ensures
        final(out)@ == old(out)@ + s@,
{
    let v = chars_of(s);
    push_all(out, &v);
}

/// Whether two character sequences are equal.
pub(crate) fn same_chars(a: &Vec<char>, b: &Vec<char>) -> (r: bool)
    ensures
        r == (a@ == b@),
{
    if a.len() != b.len() {
        return false;
    }
    let mut i: usize = 0;
    while i < a.len()
        invariant
            a@.len() == b@.len(),
            i <= a@.len(),
            forall|j: int| 0 <= j < i ==> a@[j] == b@[j],
        decreases a.len() - i,
    {
        if a[i] != b[i] {
            return false;
        }
        i = i + 1;
    }
    assert(a@ =~= b@);
    true
}

/// Whether the text `s` equals `t`.
pub(crate) fn str_is(s: &str, t: &str) -> (r: bool)
    ensures
        r == (s@ == t@),
{
    let a = chars_of(s);
    let b = chars_of(t);
    same_chars(&a, &b)
}

/// A parameter attached to a property, such as `TZID=Europe/Berlin`.
#[derive(Debug, Clone, PartialEq, Eq)]
pub struct Parameter {
    pub key: String,
    pub val: String,
}

impl View for Parameter {
    type V = (Seq<char>, Seq<char>);

    open spec fn view(&self) -> (Seq<char>, Seq<char>) {
        (self.key@, self.val@)
    }
}

impl Parameter {
    /// A parameter with the given name and value, both kept verbatim.
    pub fn new(key: &str, val: &str) -> (r: Parameter)
        ensures
            r@ == (key@, val@),
    {
        Parameter { key: key.to_owned(), val: val.to_owned() }
    }
}

/// What a property is: its key, its value and its parameters in order of attachment.
pub struct PropertyModel {
    pub key: Seq<char>,
    pub value: Seq<char>,
    pub params: Seq<(Seq<char>, Seq<char>)>,
}

/// A property: `KEY;PARAM=VALUE:value`.
#[derive(Debug, Clone, PartialEq, Eq)]
pub struct Property {
    pub key: String,
    pub val: String,
    pub params: Vec<Parameter>,
}

impl View for Property {
    type V = PropertyModel;

    open spec fn view(&self) -> PropertyModel {
        PropertyModel {
            key: self.key@,
            value: self.val@,
            params: self.params@.map_values(|p: Parameter| p@),
        }
    }
}

/// The model of a property without parameters.
pub open spec fn plain_property(key: Seq<char>, value: Seq<char>) -> PropertyModel {
    PropertyModel { key, value, params: seq![] }
}

/// The escaped form of one character of a property value.
pub open spec fn escape_char(c: char) -> Seq<char> {
    if c == '\\' {
        seq!['\\', '\\']
    } else if c == ';' {
        seq!['\\', ';']
    } else if c == ',' {
        seq!['\\', ',']
    } else if c == '\n' {
        seq!['\\', 'n']
    } else {
        seq![c]
    }
}

/// A property value with backslash, semicolon, comma and newline escaped.
pub open spec fn escape_value(s: Seq<char>) -> Seq<char>
    decreases s.len(),
{
    if s.len() == 0 {
        seq![]
    } else {
        escape_value(s.drop_last()) + escape_char(s.last())
    }
}

/// Whether a parameter value holds a character that forces quoting.
pub open spec fn needs_quotes(s: Seq<char>) -> bool {
    exists|i: int| 0 <= i < s.len() && (s[i] == ':' || s[i] == ';' || s[i] == ',')
}

/// The escaped form of one character of a parameter value: `^` as `^^`, a newline as
/// `^n`, a double quote as `^'`.
pub open spec fn caret_char(c: char) -> Seq<char> {
    if c == '^' {
        seq!['^', '^']
    } else if c == '\n' {
        seq!['^', 'n']
    } else if c == '"' {
        seq!['^', '\'']
    } else {
        seq![c]
    }
}

/// A parameter value with `^`, newline and double quote escaped.
pub open spec fn caret_escape(s: Seq<char>) -> Seq<char>
    decreases s.len(),
{
    if s.len() == 0 {
        seq![]
    } else {
        caret_escape(s.drop_last()) + caret_char(s.last())
    }
}

/// A parameter value as written: escaped, and in double quotes where it holds `:`, `;`
/// or `,`.
pub open spec fn quote_param(s: Seq<char>) -> Seq<char> {
    if needs_quotes(s) {
        seq!['"'] + caret_escape(s) + seq!['"']
    } else {
        caret_escape(s)
    }
}

/// The parameters as written after the key: `;NAME=VALUE` for each, in order.
pub open spec fn params_text(ps: Seq<(Seq<char>, Seq<char>)>) -> Seq<char>
    decreases ps.len(),
{
    if ps.len() == 0 {
        seq![]
    } else {
        params_text(ps.drop_last()) + seq![';'] + ps.last().0 + seq!['='] + quote_param(
            ps.last().1,
        )
    }
}

/// The line terminator of the format.
pub open spec fn crlf() -> Seq<char> {
    seq!['\r', '\n']
}

/// The full line of a property, terminator included.
pub open spec fn property_line(p: PropertyModel) -> Seq<char> {
    p.key + params_text(p.params) + seq![':'] + escape_value(p.value) + crlf()
}

/// Appends `s` to `out` with the value escapes applied.
fn push_escaped(out: &mut Vec<char>, s: &str)
    ensures
        final(out)@ == old(out)@ + escape_value(s@),
{
    let v = chars_of(s);
    let mut i: usize = 0;
    while i < v.len()
        invariant
            v@ == s@,
            i <= v@.len(),
            out@ == old(out)@ + escape_value(v@.subrange(0, i as int)),
        decreases v.len() - i,
    {
        let c = v[i];
        let ghost before = out@;
        if c == '\\' {
            out.push('\\');
            out.push('\\');
        } else if c == ';' {
            out.push('\\');
            out.push(';');
        } else if c == ',' {
            out.push('\\');
            out.push(',');
        } else if c == '\n' {
            out.push('\\');
            out.push('n');
        } else {
            out.push(c);
        }
        assert(out@ =~= before + escape_char(c));
        i = i + 1;
        assert(v@.subrange(0, i as int).drop_last() =~= v@.subrange(0, i - 1 as int));
    }
    assert(v@.subrange(0, v@.len() as int) =~= v@);
}

/// Appends `v` to `out` with the parameter value escapes applied.
fn push_caret_escaped(out: &mut Vec<char>, v: &Vec<char>)
    ensures
        final(out)@ == old(out)@ + caret_escape(v@),
{
    let mut i: usize = 0;
    while i < v.len()
        invariant
            i <= v@.len(),
            out@ == old(out)@ + caret_escape(v@.subrange(0, i as int)),
        decreases v.len() - i,
    {
        let c = v[i];
        let ghost before = out@;
        if c == '^' {
            out.push('^');
            out.push('^');
        } else if c == '\n' {
            out.push('^');
            out.push('n');
        } else if c == '"' {
            out.push('^');
            out.push('\'');
        } else {
            out.push(c);
        }
        assert(out@ =~= before + caret_char(c));
        i = i + 1;
        assert(v@.subrange(0, i as int).drop_last() =~= v@.subrange(0, i - 1 as int));
    }
    assert(v@.subrange(0, v@.len() as int) =~= v@);
}

/// Whether a parameter value must be quoted.
fn param_needs_quotes(s: &Vec<char>) -> (r: bool)
    ensures
        r == needs_quotes(s@),
{
    let mut i: usize = 0;
    while i < s.len()
        invariant
            i <= s@.len(),
            forall|j: int| 0 <= j < i ==> !(s@[j] == ':' || s@[j] == ';' || s@[j] == ','),
        decreases s.len() - i,
    {
        if s[i] == ':' || s[i] == ';' || s[i] == ',' {
            return true;
        }
        i = i + 1;
    }
    false
}

impl Property {
    /// A property with the given key and value, both kept verbatim, and no parameters.
    pub fn new(key: &str, val: &str) -> (r: Property)
        ensures
            r@ == plain_property(key@, val@),
    {
        let r = Property { key: key.to_owned(), val: val.to_owned(), params: Vec::new() };
        assert(r@.params =~= Seq::<(Seq<char>, Seq<char>)>::empty());
        r
    }

    /// Appends a parameter; parameters with the same name are all kept.
    pub fn append_parameter(self, param: Parameter) -> (r: Property)
        ensures
            r@ == (PropertyModel { params: self@.params.push(param@), ..self@ }),
    {
        let mut r = self;
        let ghost old_params = r.params@;
        r.params.push(param);
        assert(r.params@.map_values(|p: Parameter| p@) =~= old_params.map_values(
            |p: Parameter| p@,
        ).push(param@));
        r
    }

    /// The key.
    pub fn key(&self) -> (r: &str)
        ensures
            r@ == self@.key,
    {
        self.key.as_str()
    }

    /// The value.
    pub fn value(&self) -> (r: &str)
        ensures
            r@ == self@.value,
    {
        self.val.as_str()
    }

    /// Appends this property's line, terminator included, to `out`.
    pub fn write_line(&self, out: &mut Vec<char>)
        ensures
            final(out)@ == old(out)@ + property_line(self@),
    {
        let ghost start = out@;
        push_str(out, self.key.as_str());
        let mut i: usize = 0;
        while i < self.params.len()
            invariant
                i <= self.params@.len(),
                out@ == start + self@.key + params_text(self@.params.subrange(0, i as int)),
            decreases self.params.len() - i,
        {
            let p = &self.params[i];
            let ghost before = out@;
            out.push(';');
            push_str(out, p.key.as_str());
            out.push('=');
            let pv = chars_of(p.val.as_str());
            if param_needs_quotes(&pv) {
                out.push('"');
                push_caret_escaped(out, &pv);
                out.push('"');
            } else {
                push_caret_escaped(out, &pv);
            }
            assert(out@ =~= before + seq![';'] + p@.0 + seq!['='] + quote_param(p@.1));
            i = i + 1;
            assert(self@.params.subrange(0, i as int).drop_last() =~= self@.params.subrange(
                0,
                i - 1 as int,
            ));
        }
        assert(self@.params.subrange(0, self@.params.len() as int) =~= self@.params);
        out.push(':');
        push_escaped(out, self.val.as_str());
        out.push('\r');
        out.push('\n');
        assert(out@ =~= start + property_line(self@));
    }
}

/// Whether `s` holds no line feed.
pub open spec fn no_line_feed(s: Seq<char>) -> bool {
    forall|i: int| 0 <= i < s.len() ==> #[trigger] s[i] != '\n'
}

proof fn lemma_no_line_feed_concat(a: Seq<char>, b: Seq<char>)
    requires
        no_line_feed(a),
        no_line_feed(b),
    ensures
        no_line_feed(a + b),
{
    assert forall|i: int| 0 <= i < (a + b).len() implies #[trigger] (a + b)[i] != '\n' by {
        if i < a.len() {
            assert((a + b)[i] == a[i]);
        } else {
            assert((a + b)[i] == b[i - a.len()]);
        }
    }
}

proof fn lemma_escape_value_no_line_feed(s: Seq<char>)
    ensures
        no_line_feed(escape_value(s)),
    decreases s.len(),
{
    if s.len() > 0 {
        lemma_escape_value_no_line_feed(s.drop_last());
        lemma_no_line_feed_concat(escape_value(s.drop_last()), escape_char(s.last()));
    }
}

proof fn lemma_caret_escape_no_line_feed(s: Seq<char>)
    ensures
        no_line_feed(caret_escape(s)),
    decreases s.len(),
{
    if s.len() > 0 {
        lemma_caret_escape_no_line_feed(s.drop_last());
        lemma_no_line_feed_concat(caret_escape(s.drop_last()), caret_char(s.last()));
    }
}

proof fn lemma_params_no_line_feed(ps: Seq<(Seq<char>, Seq<char>)>)
    requires
        forall|j: int| 0 <= j < ps.len() ==> no_line_feed(#[trigger] ps[j].0),
    ensures
        no_line_feed(params_text(ps)),
    decreases ps.len(),
{
    if ps.len() > 0 {
        let last = ps.last();
        assert(no_line_feed(ps[ps.len() - 1].0));
        lemma_params_no_line_feed(ps.drop_last());
        lemma_caret_escape_no_line_feed(last.1);
        let q = quote_param(last.1);
        let quote = seq!['"'];
        assert(no_line_feed(quote));
        lemma_no_line_feed_concat(quote, caret_escape(last.1));
        lemma_no_line_feed_concat(quote + caret_escape(last.1), quote);
        let semi = seq![';'];
        let eq = seq!['='];
        assert(no_line_feed(semi) && no_line_feed(eq));
        lemma_no_line_feed_concat(params_text(ps.drop_last()), semi);
        lemma_no_line_feed_concat(params_text(ps.drop_last()) + semi, last.0);
        lemma_no_line_feed_concat(params_text(ps.drop_last()) + semi + last.0, eq);
        lemma_no_line_feed_concat(params_text(ps.drop_last()) + semi + last.0 + eq, q);
    }
}

/// Where the key and the parameter names hold no line feed, a property's line ends in
/// CR LF and holds no other line feed: values and parameter values never break a line.
pub proof fn lemma_line_ends_in_crlf(p: PropertyModel)
    requires
        no_line_feed(p.key),
        forall|j: int| 0 <= j < p.params.len() ==> no_line_feed(#[trigger] p.params[j].0),
    ensures
        ({
            let l = property_line(p);
            &&& l.len() >= 2
            &&& l.subrange(l.len() - 2, l.len() as int) == crlf()
            &&& no_line_feed(l.subrange(0, l.len() - 1))
        }),
{
    lemma_params_no_line_feed(p.params);
    lemma_escape_value_no_line_feed(p.value);
    let colon = seq![':'];
    assert(no_line_feed(colon));
    lemma_no_line_feed_concat(p.key, params_text(p.params));
    lemma_no_line_feed_concat(p.key + params_text(p.params), colon);
    lemma_no_line_feed_concat(p.key + params_text(p.params) + colon, escape_value(p.value));
    let body = p.key + params_text(p.params) + colon + escape_value(p.value);
    let cr = seq!['\r'];
    lemma_no_line_feed_concat(body, cr);
    let l = property_line(p);
    assert(l =~= body + crlf());
    assert(l.subrange(l.len() - 2, l.len() as int) =~= crlf());
    assert(l.subrange(0, l.len() - 1) =~= body + cr);
}

} // verus!
