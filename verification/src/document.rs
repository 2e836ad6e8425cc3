//! Generating the documentation of a trait or macro from `add_doc`
//! attributes: the token trees of the item are read in order, the doc lines
//! and attributes are collected, and a `# Input Parameters`, `# Return`,
//! `# Errors` and `# Also See` section is written before each function.
use crate::error::{CoreErrorKind, Error};
use crate::text::{spec_substring, str_equals, substring_of};
use vstd::prelude::*;

verus! {

/// The number of bytes of the UTF-8 encoding of `s`, as `str::len` gives it.
pub open spec fn blen(s: Seq<char>) -> usize {
    vstd::utf8::encode_utf8(s).len() as usize
}

/// `s` with every occurrence of `p` (non-empty) replaced by `r`, scanning
/// from the left without overlaps.
pub open spec fn replace_all(s: Seq<char>, p: Seq<char>, r: Seq<char>) -> Seq<char>
    decreases s.len(),
{
    if s.len() == 0 || p.len() == 0 {
        s
    } else if p.len() <= s.len() && s.subrange(0, p.len() as int) == p {
        r + replace_all(s.skip(p.len() as int), p, r)
    } else {
        seq![s[0]] + replace_all(s.skip(1), p, r)
    }
}

/// The texts of the tokens proc-macro2's own lexer reads from `s`, as its
/// printer writes them, or nothing when `s` is not a valid token stream.
pub uninterp spec fn tokens_of(s: Seq<char>) -> Option<Seq<Seq<char>>>;

/// The texts of the strings `v`.
pub open spec fn strs_view(v: Seq<String>) -> Seq<Seq<char>> {
    v.map_values(|s: String| s@)
}

/// Whether `litrs` accepts `s` as a string literal.
pub uninterp spec fn is_string_lit(s: Seq<char>) -> bool;

/// `proc_macro2::TokenStream::from_str` (through `str::parse`), with
/// proc-macro2's own lexer and printer forced (`proc_macro2::fallback::force`)
/// so that the result does not depend on whether a compiler is at hand: the
/// texts (`to_string`) of the token trees of `s`, in order; `None` when `s`
/// does not lex. The result is named by `tokens_of`.
#[verifier::external_body]
fn tokenize(s: &str) -> (r: Option<Vec<String>>)
    ensures
        match tokens_of(s@) {
            Some(t) => r matches Some(v) && strs_view(v@) == t,
            None => r is None,
        },
{
    proc_macro2::fallback::force();
    match s.parse::<proc_macro2::TokenStream>() {
        Ok(ts) => Some(ts.into_iter().map(|t| t.to_string()).collect()),
        Err(_) => None,
    }
}

/// `litrs::StringLit::parse`: whether `s` is a string literal. Its display,
/// which is what the library uses of it, is the literal's text as given,
/// quotes included.
#[verifier::external_body]
fn string_lit(s: &str) -> (r: Option<String>)
    ensures
        r is Some <==> is_string_lit(s@),
        r matches Some(t) ==> t@ == s@,
{
    match litrs::StringLit::parse(s) {
        Ok(lit) => Some(lit.to_string()),
        Err(_) => None,
    }
}

fn parse_error(text: &str) -> (e: Error)
    ensures
        e.is_parse(),
{
    Error::base(CoreErrorKind::Parse(String::from_str(text)))
}

/// The replacement of every `p` by `r` in `s`.
fn replace_str(s: &str, p: &str, r: &str) -> (out: String)
    requires
        p@.len() > 0,
    ensures
        out@ == replace_all(s@, p@, r@),
{
    let n = s.unicode_len();
    let m = p.unicode_len();
    let mut out = String::new();
    let mut i: usize = 0;
    assert(s@.skip(0) =~= s@);
    assert(out@ + replace_all(s@, p@, r@) =~= replace_all(s@, p@, r@));
    while i < n
        invariant
            n == s@.len(),
            m == p@.len(),
            m > 0,
            i <= n,
            out@ + replace_all(s@.skip(i as int), p@, r@) == replace_all(s@, p@, r@),
        decreases n - i,
    {
        let ghost rest = s@.skip(i as int);
        let mut matched = m <= n - i;
        if matched {
            let mut j: usize = 0;
            while j < m
                invariant
                    n == s@.len(),
                    m == p@.len(),
                    i + m <= n,
                    j <= m,
                    matched == forall|q: int| 0 <= q < j ==> s@[i + q] == p@[q],
                decreases m - j,
            {
                if s.get_char(i + j) != p.get_char(j) {
                    matched = false;
                }
                j = j + 1;
            }
        }
        if matched {
            assert(rest.subrange(0, m as int) =~= p@);
            assert(rest.skip(m as int) =~= s@.skip(i + m));
            out.append(r);
            i = i + m;
        } else {
            assert(!(m <= rest.len() && rest.subrange(0, m as int) == p@)) by {
                if m <= rest.len() && rest.subrange(0, m as int) == p@ {
                    let q = choose|q: int| 0 <= q < m && s@[i + q] != p@[q];
                    assert(rest.subrange(0, m as int)[q] == s@[i + q]);
                }
            }
            assert(rest.skip(1) =~= s@.skip(i + 1));
            let ghost before = out@;
            let one = substring_of(s, i, i + 1);
            assert(one@ =~= seq![rest[0]]);
            out.append(one);
            assert(out@ =~= before + seq![rest[0]]);
            i = i + 1;
        }
    }
    assert(s@.skip(n as int) =~= Seq::<char>::empty());
    assert(out@ + Seq::<char>::empty() =~= out@);
    out
}

/// A documented parameter: its name, the text documenting it, its type, and
/// its place among the parameters of the function.
pub struct Input {
    pub name: String,
    pub text: String,
    pub type_str: String,
    pub is_mut: bool,
    pub is_ref: bool,
    pub seqno: usize,
}

/// The mathematical value of a documented parameter.
pub struct InputView {
    pub name: Seq<char>,
    pub text: Seq<char>,
    pub type_str: Seq<char>,
    pub is_mut: bool,
    pub is_ref: bool,
    pub seqno: usize,
}

impl View for Input {
    type V = InputView;

    open spec fn view(&self) -> InputView {
        InputView {
            name: self.name@,
            text: self.text@,
            type_str: self.type_str@,
            is_mut: self.is_mut,
            is_ref: self.is_ref,
            seqno: self.seqno,
        }
    }
}

/// The state of the documentation generator while it reads an item.
pub struct DocState {
    /// The text generated so far.
    pub ret: String,
    pub in_hash: bool,
    pub in_trait: bool,
    pub expect_add_doc: bool,
    pub expect_return_type: bool,
    pub last_dash: bool,
    /// Where in `ret` the sections of the next function go (zero: not set).
    pub doc_point: usize,
    pub expect_fn_name: bool,
    pub expect_parameters: bool,
    pub expect_doc_equal: bool,
    pub expect_doc_line: bool,
    pub expect_name: bool,
    /// The name of the trait being read.
    pub name: String,
    pub in_macro_rules: bool,
    /// The parameters documented for the next function, each name once.
    pub inputs: Vec<Input>,
    pub error_str: String,
    pub see_str: String,
    pub return_str: String,
    pub return_type_str: String,
    /// The replacements made in return types before they are written.
    pub replacements: Vec<(String, String)>,
}

/// The mathematical value of the state of the documentation generator.
pub struct DocView {
    pub ret: Seq<char>,
    pub in_hash: bool,
    pub in_trait: bool,
    pub expect_add_doc: bool,
    pub expect_return_type: bool,
    pub last_dash: bool,
    pub doc_point: usize,
    pub expect_fn_name: bool,
    pub expect_parameters: bool,
    pub expect_doc_equal: bool,
    pub expect_doc_line: bool,
    pub expect_name: bool,
    pub name: Seq<char>,
    pub in_macro_rules: bool,
    pub inputs: Seq<InputView>,
    pub error_str: Seq<char>,
    pub see_str: Seq<char>,
    pub return_str: Seq<char>,
    pub return_type_str: Seq<char>,
    pub replacements: Seq<(Seq<char>, Seq<char>)>,
}

impl View for DocState {
    type V = DocView;

    open spec fn view(&self) -> DocView {
        DocView {
            ret: self.ret@,
            in_hash: self.in_hash,
            in_trait: self.in_trait,
            expect_add_doc: self.expect_add_doc,
            expect_return_type: self.expect_return_type,
            last_dash: self.last_dash,
            doc_point: self.doc_point,
            expect_fn_name: self.expect_fn_name,
            expect_parameters: self.expect_parameters,
            expect_doc_equal: self.expect_doc_equal,
            expect_doc_line: self.expect_doc_line,
            expect_name: self.expect_name,
            name: self.name@,
            in_macro_rules: self.in_macro_rules,
            inputs: inputs_view(self.inputs@),
            error_str: self.error_str@,
            see_str: self.see_str@,
            return_str: self.return_str@,
            return_type_str: self.return_type_str@,
            replacements: reps_view(self.replacements@),
        }
    }
}

/// The values of the replacements `v`.
pub open spec fn reps_view(v: Seq<(String, String)>) -> Seq<(Seq<char>, Seq<char>)> {
    v.map_values(|p: (String, String)| (p.0@, p.1@))
}

/// The values of the parameters `v`.
pub open spec fn inputs_view(v: Seq<Input>) -> Seq<InputView> {
    v.map_values(|i: Input| i@)
}

/// The index of the parameter named `name`, if there is one.
pub open spec fn input_named(inputs: Seq<InputView>, name: Seq<char>) -> Option<int> {
    if exists|i: int| 0 <= i < inputs.len() && #[trigger] inputs[i].name == name {
        Some(choose|i: int| 0 <= i < inputs.len() && #[trigger] inputs[i].name == name)
    } else {
        None
    }
}

/// No two parameters have the same name.
pub open spec fn names_unique(inputs: Seq<InputView>) -> bool {
    forall|a: int, b: int| 0 <= a < b < inputs.len() ==> #[trigger] inputs[a].name != #[trigger] inputs[b].name
}

/// The state is consistent: each parameter is documented once, and every
/// replacement replaces something.
pub open spec fn doc_wf(v: DocView) -> bool {
    &&& names_unique(v.inputs)
    &&& forall|i: int| 0 <= i < v.replacements.len() ==> (#[trigger] v.replacements[i]).0.len() > 0
}

/// Records the type, reference and mutability and the place of the
/// parameter `name`, adding it when it is not documented yet.
pub open spec fn set_param(
    inputs: Seq<InputView>,
    name: Seq<char>,
    type_str: Seq<char>,
    is_ref: bool,
    is_mut: bool,
    seqno: usize,
) -> Seq<InputView> {
    match input_named(inputs, name) {
        Some(i) => inputs.update(
            i,
            InputView { type_str, is_ref, is_mut, seqno, ..inputs[i] },
        ),
        None => inputs.push(
            InputView { name, text: Seq::empty(), type_str, is_mut, is_ref, seqno },
        ),
    }
}

/// Adds `text` to the documentation of the parameter `name` (after a
/// space), adding the parameter with the type `type_str` when it is not
/// documented yet.
pub open spec fn add_param_text(inputs: Seq<InputView>, name: Seq<char>, text: Seq<char>, type_str: Seq<
    char,
>) -> Seq<InputView> {
    match input_named(inputs, name) {
        Some(i) => inputs.update(i, InputView { text: inputs[i].text + " "@ + text, ..inputs[i] }),
        None => inputs.push(
            InputView { name, text, type_str, is_mut: false, is_ref: false, seqno: 0 },
        ),
    }
}

fn find_input(inputs: &Vec<Input>, name: &str) -> (r: Option<usize>)
    requires
        names_unique(inputs_view(inputs@)),
    ensures
        match r {
            Some(j) => input_named(inputs_view(inputs@), name@) == Some(j as int) && j < inputs@.len(),
            None => input_named(inputs_view(inputs@), name@) is None,
        },
{
    let ghost v = inputs_view(inputs@);
    let n = inputs.len();
    let mut i: usize = 0;
    while i < n
        invariant
            n == inputs@.len(),
            v == inputs_view(inputs@),
            names_unique(v),
            i <= n,
            forall|k: int| 0 <= k < i ==> v[k].name != name@,
        decreases n - i,
    {
        if str_equals(inputs[i].name.as_str(), name) {
            proof {
                assert(v[i as int].name == name@);
                let c = choose|q: int| 0 <= q < v.len() && #[trigger] v[q].name == name@;
                assert(v[c].name == name@);
                if c != i {
                    if c < i {
                        assert(v[c].name != v[i as int].name);
                    } else {
                        assert(v[i as int].name != v[c].name);
                    }
                }
            }
            return Some(i);
        }
        i = i + 1;
    }
    None
}

/// A doc line written out: the literal's quotes are removed (an empty line
/// when the literal is at most two bytes long), escaped quotes are
/// unescaped, and the line is written as `///` and the text.
pub open spec fn doc_line(value: Seq<char>) -> Seq<char> {
    let inner = if blen(value) > 2 {
        spec_substring(value, 1, blen(value) - 1)
    } else {
        Seq::empty()
    };
    "\n///"@ + replace_all(replace_all(inner, "\\\""@, "\""@), "\\'"@, "'"@)
}

/// Where the sections of the next function go: the current end of the text
/// (in bytes), unless a place is already set.
pub open spec fn marked(v: DocView) -> DocView {
    if v.doc_point == 0 {
        DocView { doc_point: blen(v.ret) as usize, ..v }
    } else {
        v
    }
}

impl DocState {
    /// The state before anything was read: the text starts with an empty
    /// `add_doc` attribute, and return types get the replacements given.
    pub fn new(replacements: Vec<(String, String)>) -> (r: Result<DocState, Error>)
        ensures
            r is Ok <==> forall|i: int| 0 <= i < replacements@.len() ==> (#[trigger] replacements@[i]).0@.len() > 0,
            r matches Err(e) ==> e.is_parse(),
            r matches Ok(st) ==> doc_wf(st@) && st@ == initial_doc(
                reps_view(replacements@),
            ),
    {
        let n = replacements.len();
        let mut i: usize = 0;
        while i < n
            invariant
                n == replacements@.len(),
                i <= n,
                forall|k: int| 0 <= k < i ==> (#[trigger] replacements@[k]).0@.len() > 0,
            decreases n - i,
        {
            if replacements[i].0.as_str().unicode_len() == 0 {
                return Err(parse_error("a replacement must replace something"));
            }
            i = i + 1;
        }
        proof {
            reveal_strlit("");
        }
        let st = DocState {
            ret: String::from_str("#[add_doc(empty)]\n"),
            in_hash: false,
            in_trait: false,
            expect_add_doc: false,
            expect_return_type: false,
            last_dash: false,
            doc_point: 0,
            expect_fn_name: false,
            expect_parameters: false,
            expect_doc_equal: false,
            expect_doc_line: false,
            expect_name: false,
            name: String::new(),
            in_macro_rules: false,
            inputs: Vec::new(),
            error_str: String::new(),
            see_str: String::new(),
            return_str: String::new(),
            return_type_str: String::new(),
            replacements,
        };
        assert(st@.inputs =~= Seq::<InputView>::empty());
        assert(st@.name =~= Seq::<char>::empty());
        assert(st@ =~~= initial_doc(reps_view(replacements@)));
        Ok(st)
    }

    /// Sets where the sections of the next function go, unless it is set.
    pub fn mark_doc(&mut self)
        ensures
            final(self)@ == marked(old(self)@),
    {
        if self.doc_point == 0 {
            self.doc_point = self.ret.as_str().len();
        }
    }

    /// Writes the doc line held by the string literal `value`.
    pub fn process_doc(&mut self, value: &str)
        ensures
            final(self)@ == (DocView { ret: old(self)@.ret + doc_line(value@), ..old(self)@ }),
    {
        let blen_v = value.len();
        let inner = if blen_v > 2 {
            substring_of(value, 1, blen_v - 1)
        } else {
            ""
        };
        proof {
            reveal_strlit("");
            reveal_strlit("\\\"");
            reveal_strlit("\"");
            reveal_strlit("\\'");
            reveal_strlit("'");
            reveal_strlit("\n///");
        }
        let a = replace_str(inner, "\\\"", "\"");
        let b = replace_str(a.as_str(), "\\'", "'");
        self.ret.append("\n///");
        self.ret.append(b.as_str());
        assert(self@.ret =~= old(self)@.ret + doc_line(value@));
    }

    /// Records the type, reference and mutability and the place of the
    /// parameter `name` (see `set_param`).
    pub fn add_name_value(&mut self, name: &str, value: &str, is_ref: bool, is_mut: bool, seqno: usize)
        requires
            doc_wf(old(self)@),
        ensures
            doc_wf(final(self)@),
            final(self)@ == (DocView {
                inputs: set_param(old(self)@.inputs, name@, value@, is_ref, is_mut, seqno),
                ..old(self)@
            }),
    {
        set_param_in(&mut self.inputs, name, value, is_ref, is_mut, seqno);
    }
}

fn set_param_in(inputs: &mut Vec<Input>, name: &str, value: &str, is_ref: bool, is_mut: bool, seqno: usize)
    requires
        names_unique(inputs_view(old(inputs)@)),
    ensures
        names_unique(inputs_view(final(inputs)@)),
        inputs_view(final(inputs)@) == set_param(
            inputs_view(old(inputs)@),
            name@,
            value@,
            is_ref,
            is_mut,
            seqno,
        ),
{
    let ghost v0 = inputs_view(inputs@);
    let found = find_input(inputs, name);
    match found {
        Some(i) => {
            assert(input_named(v0, name@) is Some);
            assert(input_named(v0, name@) == Some(i as int));
            let text = inputs[i].text.clone();
            let nm = inputs[i].name.clone();
            let new_input = Input { name: nm, text, type_str: String::from_str(value), is_mut, is_ref, seqno };
            inputs.set(i, new_input);
            proof {
                let nv = inputs_view(inputs@);
                assert(nv =~= v0.update(i as int, new_input@));
                assert(new_input@ == InputView { type_str: value@, is_ref, is_mut, seqno, ..v0[i as int] });
                let k = input_named(v0, name@)->0;
                assert(k == i as int);
                assert(nv == set_param(v0, name@, value@, is_ref, is_mut, seqno));
                assert forall|a: int, b: int| 0 <= a < b < nv.len() implies #[trigger] nv[a].name != #[trigger] nv[b].name by {
                    assert(nv[a].name == v0[a].name);
                    assert(nv[b].name == v0[b].name);
                }
            }
        },
        None => {
            let new_input = Input {
                name: String::from_str(name),
                text: String::new(),
                type_str: String::from_str(value),
                is_mut,
                is_ref,
                seqno,
            };
            inputs.push(new_input);
            proof {
                let nv = inputs_view(inputs@);
                assert(nv =~= v0.push(new_input@));
                assert(new_input@.text =~= Seq::<char>::empty());
                assert(input_named(v0, name@) is None);
                assert(new_input@ == InputView { name: name@, text: Seq::empty(), type_str: value@, is_mut, is_ref, seqno });
                assert(nv == set_param(v0, name@, value@, is_ref, is_mut, seqno));
                assert forall|a: int, b: int| 0 <= a < b < nv.len() implies #[trigger] nv[a].name != #[trigger] nv[b].name by {
                    if b == nv.len() - 1 {
                        assert(nv[a] == v0[a]);
                        assert(!(v0[a].name == name@));
                    }
                }
            }
        },
    }
}

/// `n - 1`, or zero.
pub open spec fn less_one(n: usize) -> int {
    if n >= 1 {
        n - 1
    } else {
        0
    }
}

/// The text of a string literal without its quotes (by character, up to
/// the byte length less one).
pub open spec fn lit_inner(v: Seq<char>) -> Seq<char> {
    spec_substring(v, 1, less_one(blen(v)))
}

/// What `add_doc(input = name, "text")`, with an optional `, "type"`, does.
pub open spec fn add_doc_input_spec(v: DocView, e: Seq<Seq<char>>) -> Option<DocView> {
    if e.len() < 5 {
        None
    } else if e.len() >= 7 && (!is_string_lit(e[6]) || blen(e[6]) < 3) {
        None
    } else if !is_string_lit(e[4]) || blen(e[4]) < 3 {
        None
    } else {
        let ty = if e.len() >= 7 {
            lit_inner(e[6])
        } else {
            Seq::empty()
        };
        Some(DocView { inputs: add_param_text(v.inputs, e[2], lit_inner(e[4]), ty), ..v })
    }
}

/// What `add_doc(error = "kind")`, with an optional `, "text"`, does.
pub open spec fn add_doc_error_spec(v: DocView, e: Seq<Seq<char>>) -> Option<DocView> {
    if !is_string_lit(e[2]) || 1 >= less_one(blen(e[2])) {
        None
    } else if e.len() >= 5 && !is_string_lit(e[4]) {
        None
    } else {
        let extra = if e.len() >= 5 {
            " - "@ + if blen(e[4]) > 3 {
                lit_inner(e[4])
            } else {
                e[4]
            }
        } else {
            Seq::empty()
        };
        Some(DocView { error_str: v.error_str + "\n///\n/// * [`"@ + lit_inner(e[2]) + "`] "@ + extra, ..v })
    }
}

/// What `add_doc(return = "text")`, with an optional `, "type"`, does.
pub open spec fn add_doc_return_spec(v: DocView, e: Seq<Seq<char>>) -> Option<DocView> {
    if !is_string_lit(e[2]) || 1 >= less_one(blen(e[2])) {
        None
    } else if e.len() >= 5 && (!is_string_lit(e[4]) || 1 >= less_one(blen(e[4]))) {
        None
    } else {
        Some(
            DocView {
                return_type_str: if e.len() >= 5 {
                    lit_inner(e[4])
                } else {
                    v.return_type_str
                },
                return_str: v.return_str + lit_inner(e[2]) + " "@,
                ..v
            },
        )
    }
}

/// What `add_doc(see = "item")` does.
pub open spec fn add_doc_see_spec(v: DocView, e: Seq<Seq<char>>) -> Option<DocView> {
    if !is_string_lit(e[2]) || 1 >= less_one(blen(e[2])) {
        None
    } else {
        Some(DocView { see_str: v.see_str + "\n///\n/// * [`"@ + lit_inner(e[2]) + "`] "@, ..v })
    }
}

/// What an `add_doc` attribute with the arguments `line` does to the state;
/// `None` when it is malformed.
pub open spec fn add_doc_spec(v: DocView, line: Seq<char>) -> Option<DocView> {
    match tokens_of(line) {
        None => None,
        Some(e) => if e.len() > 0 && e[0] == "doc_point"@ {
            Some(marked(v))
        } else if e.len() < 3 {
            None
        } else if e[0] == "input"@ {
            add_doc_input_spec(v, e)
        } else if e[0] == "error"@ {
            add_doc_error_spec(v, e)
        } else if e[0] == "return"@ {
            add_doc_return_spec(v, e)
        } else if e[0] == "see"@ {
            add_doc_see_spec(v, e)
        } else {
            None
        },
    }
}

fn inner_of(v: &str) -> (r: &str)
    ensures
        r@ == lit_inner(v@),
{
    let n = v.len();
    substring_of(v, 1, n.saturating_sub(1))
}

fn add_param_text_in(inputs: &mut Vec<Input>, name: &str, text: &str, type_str: &str)
    requires
        names_unique(inputs_view(old(inputs)@)),
    ensures
        names_unique(inputs_view(final(inputs)@)),
        inputs_view(final(inputs)@) == add_param_text(inputs_view(old(inputs)@), name@, text@, type_str@),
{
    let ghost v0 = inputs_view(inputs@);
    let found = find_input(inputs, name);
    match found {
        Some(i) => {
            let mut t = inputs[i].text.clone();
            t.append(" ");
            t.append(text);
            let new_input = Input {
                name: inputs[i].name.clone(),
                text: t,
                type_str: inputs[i].type_str.clone(),
                is_mut: inputs[i].is_mut,
                is_ref: inputs[i].is_ref,
                seqno: inputs[i].seqno,
            };
            inputs.set(i, new_input);
            proof {
                let nv = inputs_view(inputs@);
                assert(nv =~= v0.update(i as int, new_input@));
                assert(new_input@ == InputView { text: v0[i as int].text + " "@ + text@, ..v0[i as int] });
                assert forall|a: int, b: int| 0 <= a < b < nv.len() implies #[trigger] nv[a].name != #[trigger] nv[b].name by {
                    assert(nv[a].name == v0[a].name);
                    assert(nv[b].name == v0[b].name);
                }
            }
        },
        None => {
            let new_input = Input {
                name: String::from_str(name),
                text: String::from_str(text),
                type_str: String::from_str(type_str),
                is_mut: false,
                is_ref: false,
                seqno: 0,
            };
            inputs.push(new_input);
            proof {
                let nv = inputs_view(inputs@);
                assert(nv =~= v0.push(new_input@));
                assert forall|a: int, b: int| 0 <= a < b < nv.len() implies #[trigger] nv[a].name != #[trigger] nv[b].name by {
                    if b == nv.len() - 1 {
                        assert(nv[a] == v0[a]);
                        assert(!(v0[a].name == name@));
                    }
                }
            }
        },
    }
}

impl DocState {
    fn add_doc_input(&mut self, elems: &Vec<String>) -> (r: Result<(), Error>)
        requires
            doc_wf(old(self)@),
            elems@.len() >= 3,
        ensures
            doc_wf(final(self)@),
            match add_doc_input_spec(old(self)@, strs_view(elems@)) {
                Some(v) => r is Ok && final(self)@ == v,
                None => r matches Err(e) && e.is_parse() && final(self)@ == old(self)@,
            },
    {
        let ghost e = strs_view(elems@);
        let n = elems.len();
        if n < 5 {
            return Err(parse_error("Illegal error line (inputs must have 5 tokens)"));
        }
        assert(elems@[2]@ == e[2] && elems@[4]@ == e[4]);
        let type_str: String = if n >= 7 {
            assert(elems@[6]@ == e[6]);
            let value = match string_lit(elems[6].as_str()) {
                Some(v) => v,
                None => return Err(parse_error("invalid string literal")),
            };
            if value.as_str().len() < 3 {
                return Err(parse_error("Illegal error line (length of string must be 3 or greater)"));
            }
            String::from_str(inner_of(value.as_str()))
        } else {
            String::new()
        };
        let value = match string_lit(elems[4].as_str()) {
            Some(v) => v,
            None => return Err(parse_error("invalid string literal")),
        };
        if value.as_str().len() < 3 {
            return Err(parse_error("Illegal error line (length of string must be 3 or greater)"));
        }
        let text = inner_of(value.as_str());
        add_param_text_in(&mut self.inputs, elems[2].as_str(), text, type_str.as_str());
        Ok(())
    }

    fn add_doc_error(&mut self, elems: &Vec<String>) -> (r: Result<(), Error>)
        requires
            doc_wf(old(self)@),
            elems@.len() >= 3,
        ensures
            doc_wf(final(self)@),
            match add_doc_error_spec(old(self)@, strs_view(elems@)) {
                Some(v) => r is Ok && final(self)@ == v,
                None => r matches Err(e) && e.is_parse() && final(self)@ == old(self)@,
            },
    {
        let ghost e = strs_view(elems@);
        let n = elems.len();
        assert(elems@[2]@ == e[2]);
        let error_val = match string_lit(elems[2].as_str()) {
            Some(v) => v,
            None => return Err(parse_error("invalid string literal")),
        };
        let end = error_val.as_str().len().saturating_sub(1);
        if 1 >= end {
            return Err(parse_error("Illegal error line"));
        }
        let mut extra = String::new();
        if n >= 5 {
            assert(elems@[4]@ == e[4]);
            let value = match string_lit(elems[4].as_str()) {
                Some(v) => v,
                None => return Err(parse_error("invalid string literal")),
            };
            extra.append(" - ");
            if value.as_str().len() > 3 {
                extra.append(inner_of(value.as_str()));
            } else {
                extra.append(value.as_str());
            }
        }
        self.error_str.append("\n///\n/// * [`");
        self.error_str.append(inner_of(error_val.as_str()));
        self.error_str.append("`] ");
        self.error_str.append(extra.as_str());
        Ok(())
    }

    fn add_doc_return(&mut self, elems: &Vec<String>) -> (r: Result<(), Error>)
        requires
            doc_wf(old(self)@),
            elems@.len() >= 3,
        ensures
            doc_wf(final(self)@),
            match add_doc_return_spec(old(self)@, strs_view(elems@)) {
                Some(v) => r is Ok && final(self)@ == v,
                None => r matches Err(e) && e.is_parse() && final(self)@ == old(self)@,
            },
    {
        let ghost e = strs_view(elems@);
        let n = elems.len();
        assert(elems@[2]@ == e[2]);
        let return_val = match string_lit(elems[2].as_str()) {
            Some(v) => v,
            None => return Err(parse_error("invalid string literal")),
        };
        let end = return_val.as_str().len().saturating_sub(1);
        if 1 >= end {
            return Err(parse_error("Illegal return line"));
        }
        if n >= 5 {
            assert(elems@[4]@ == e[4]);
            let rts = match string_lit(elems[4].as_str()) {
                Some(v) => v,
                None => return Err(parse_error("invalid string literal")),
            };
            let end2 = rts.as_str().len().saturating_sub(1);
            if 1 >= end2 {
                return Err(parse_error("Illegal return line"));
            }
            self.return_type_str = String::from_str(inner_of(rts.as_str()));
        }
        self.return_str.append(inner_of(return_val.as_str()));
        self.return_str.append(" ");
        Ok(())
    }

    fn add_doc_see(&mut self, elems: &Vec<String>) -> (r: Result<(), Error>)
        requires
            doc_wf(old(self)@),
            elems@.len() >= 3,
        ensures
            doc_wf(final(self)@),
            match add_doc_see_spec(old(self)@, strs_view(elems@)) {
                Some(v) => r is Ok && final(self)@ == v,
                None => r matches Err(e) && e.is_parse() && final(self)@ == old(self)@,
            },
    {
        let ghost e = strs_view(elems@);
        assert(elems@[2]@ == e[2]);
        let see_val = match string_lit(elems[2].as_str()) {
            Some(v) => v,
            None => return Err(parse_error("invalid string literal")),
        };
        let end = see_val.as_str().len().saturating_sub(1);
        if 1 >= end {
            return Err(parse_error("Illegal see line"));
        }
        self.see_str.append("\n///\n/// * [`");
        self.see_str.append(inner_of(see_val.as_str()));
        self.see_str.append("`] ");
        Ok(())
    }

    /// Applies the `add_doc` attribute whose arguments are `line`:
    /// `doc_point` sets where the sections go; `input: name - "text"` (with
    /// an optional `- "type"`) documents a parameter; `error: "kind"` (with
    /// an optional `- "text"`), `return: "text"` (with an optional
    /// `- "type"`) and `see: "item"` add to their sections. Anything else,
    /// or a malformed attribute, is a `Parse` error and changes nothing.
    pub fn process_add_doc(&mut self, line: &str) -> (r: Result<(), Error>)
        requires
            doc_wf(old(self)@),
        ensures
            doc_wf(final(self)@),
            match add_doc_spec(old(self)@, line@) {
                Some(v) => r is Ok && final(self)@ == v,
                None => r matches Err(e) && e.is_parse() && final(self)@ == old(self)@,
            },
    {
        let elems = match tokenize(line) {
            Some(e) => e,
            None => return Err(parse_error("invalid token stream in add_doc")),
        };
        let ghost e = strs_view(elems@);
        let n = elems.len();
        if n > 0 {
            assert(elems@[0]@ == e[0]);
        }
        if n > 0 && str_equals(elems[0].as_str(), "doc_point") {
            self.mark_doc();
            return Ok(());
        }
        if n < 3 {
            return Err(parse_error("expected at least 3 elements in add_doc"));
        }
        if str_equals(elems[0].as_str(), "input") {
            self.add_doc_input(&elems)
        } else if str_equals(elems[0].as_str(), "error") {
            self.add_doc_error(&elems)
        } else if str_equals(elems[0].as_str(), "return") {
            self.add_doc_return(&elems)
        } else if str_equals(elems[0].as_str(), "see") {
            self.add_doc_see(&elems)
        } else {
            Err(parse_error("Unknown add_doc command"))
        }
    }
}

/// Reading the receiver of a method from token `k` on, up to the first
/// comma: `mut` makes it mutable, and `self` documents it as a reference to
/// the trait `name`. The result is where the reading stopped, the
/// parameters, and the number of parameters seen.
pub open spec fn self_scan(
    e: Seq<Seq<char>>,
    k: nat,
    inputs: Seq<InputView>,
    is_mut: bool,
    seqno: nat,
    name: Seq<char>,
) -> (nat, Seq<InputView>, nat)
    decreases e.len() - k,
{
    if k >= e.len() || e[k as int] == ","@ {
        (k, inputs, seqno)
    } else if e[k as int] == "mut"@ {
        self_scan(e, k + 1, inputs, true, seqno, name)
    } else if e[k as int] == "self"@ {
        self_scan(e, k + 1, set_param(inputs, "self"@, name, true, is_mut, seqno as usize), is_mut, seqno + 1, name)
    } else {
        self_scan(e, k + 1, inputs, is_mut, seqno, name)
    }
}

/// What has been read of a parameter list.
pub struct ParamScan {
    pub inputs: Seq<InputView>,
    pub seqno: nat,
    pub name: Option<Seq<char>>,
    pub is_mut: bool,
    pub is_ref: bool,
    pub type_str: Seq<char>,
}

/// Reading one token of a parameter list: the first token of a parameter
/// is its name; `&` and `mut` before its type make it a reference and
/// mutable; the other tokens but `:` make its type; a comma records it.
pub open spec fn param_step(p: ParamScan, t: Seq<char>) -> ParamScan {
    if t != ","@ && p.name is None {
        ParamScan { name: Some(t), ..p }
    } else if t == ","@ {
        let inputs = match p.name {
            Some(n) => set_param(p.inputs, n, p.type_str, p.is_ref, p.is_mut, p.seqno as usize),
            None => p.inputs,
        };
        let seqno = if p.name is Some {
            p.seqno + 1
        } else {
            p.seqno
        };
        ParamScan { inputs, seqno, name: None, is_mut: false, is_ref: false, type_str: Seq::empty() }
    } else if p.name is Some && p.type_str.len() == 0 && t == "&"@ {
        ParamScan { is_ref: true, ..p }
    } else if p.name is Some && p.type_str.len() == 0 && t == "mut"@ {
        ParamScan { is_mut: true, ..p }
    } else if p.name is Some && t != ":"@ {
        ParamScan { type_str: p.type_str + " "@ + t, ..p }
    } else {
        p
    }
}

/// Reading the tokens of a parameter list from token `k` on.
pub open spec fn param_scan(e: Seq<Seq<char>>, k: nat, p: ParamScan) -> ParamScan
    decreases e.len() - k,
{
    if k >= e.len() {
        p
    } else {
        param_scan(e, k + 1, param_step(p, e[k as int]))
    }
}

/// The parameters documented after reading the parameter list whose
/// tokens are `e`, for a function of the trait `name`; `None` when a
/// receiver `&` is all there is.
pub open spec fn params_spec(inputs: Seq<InputView>, e: Seq<Seq<char>>, name: Seq<char>) -> Option<Seq<InputView>> {
    if e.len() > 0 && e[0] == "&"@ && e.len() <= 1 {
        None
    } else {
        let (itt, inputs1, seqno) = if e.len() > 0 && e[0] == "&"@ {
            self_scan(e, 1, inputs, false, 0, name)
        } else {
            (0, inputs, 0)
        };
        let p = param_scan(
            e,
            itt,
            ParamScan { inputs: inputs1, seqno, name: None, is_mut: false, is_ref: false, type_str: Seq::empty() },
        );
        Some(
            match p.name {
                Some(n) => set_param(p.inputs, n, p.type_str, p.is_ref, p.is_mut, p.seqno as usize),
                None => p.inputs,
            },
        )
    }
}

/// What reading the parameter list `line` (with its parentheses) does: a
/// list under three bytes long is empty; otherwise its inside is read as
/// tokens. `None` when it is malformed.
pub open spec fn parameters_spec(v: DocView, line: Seq<char>) -> Option<DocView> {
    if blen(line) < 3 {
        Some(v)
    } else {
        match tokens_of(spec_substring(line, 1, blen(line) - 1)) {
            None => None,
            Some(e) => if e.len() == 0 {
                None
            } else {
                match params_spec(v.inputs, e, v.name) {
                    Some(inputs) => Some(DocView { inputs, ..v }),
                    None => None,
                }
            },
        }
    }
}

/// A parameter being read: its name, mutability, reference and type so
/// far, and the number of parameters recorded.
struct ParamAcc {
    name: Option<String>,
    is_mut: bool,
    is_ref: bool,
    type_str: String,
    seqno: usize,
}

/// The reading state of parameters `inputs` and the parameter `a`.
spec fn scan_of(inputs: Seq<InputView>, a: &ParamAcc) -> ParamScan {
    ParamScan {
        inputs,
        seqno: a.seqno as nat,
        name: match a.name {
            Some(s) => Some(s@),
            None => None,
        },
        is_mut: a.is_mut,
        is_ref: a.is_ref,
        type_str: a.type_str@,
    }
}

impl DocState {
    fn self_token(
        &mut self,
        t: &str,
        is_mut: &mut bool,
        seqno: &mut usize,
        name: &str,
        Ghost(e): Ghost<Seq<Seq<char>>>,
        Ghost(k): Ghost<nat>,
    )
        requires
            doc_wf(old(self)@),
            *old(seqno) < usize::MAX,
            t@ != ","@,
            k < e.len(),
            e[k as int] == t@,
        ensures
            doc_wf(final(self)@),
            final(self)@ == (DocView { inputs: final(self)@.inputs, ..old(self)@ }),
            *final(seqno) <= *old(seqno) + 1,
            self_scan(e, k, old(self)@.inputs, *old(is_mut), *old(seqno) as nat, name@) == self_scan(
                e,
                k + 1,
                final(self)@.inputs,
                *final(is_mut),
                *final(seqno) as nat,
                name@,
            ),
    {
        proof {
            reveal_strlit("mut");
            reveal_strlit("self");
        }
        if str_equals(t, "mut") {
            *is_mut = true;
        } else if str_equals(t, "self") {
            self.add_name_value("self", name, true, *is_mut, *seqno);
            *seqno = *seqno + 1;
        }
    }

    fn param_token(&mut self, t: &str, acc: &mut ParamAcc)
        requires
            doc_wf(old(self)@),
            old(acc).seqno < usize::MAX,
        ensures
            doc_wf(final(self)@),
            final(self)@ == (DocView { inputs: final(self)@.inputs, ..old(self)@ }),
            final(acc).seqno <= old(acc).seqno + 1,
            scan_of(final(self)@.inputs, &*final(acc)) == param_step(scan_of(old(self)@.inputs, &*old(acc)), t@),
    {
        proof {
            reveal_strlit("&");
            reveal_strlit(",");
            reveal_strlit("mut");
            reveal_strlit(":");
            reveal_strlit("");
            reveal_strlit(" ");
        }
        let is_comma = str_equals(t, ",");
        if !is_comma && acc.name.is_none() {
            acc.name = Some(String::from_str(t));
        } else if is_comma {
            match &acc.name {
                Some(nm) => {
                    self.add_name_value(nm.as_str(), acc.type_str.as_str(), acc.is_ref, acc.is_mut, acc.seqno);
                    acc.seqno = acc.seqno + 1;
                },
                None => {},
            }
            acc.name = None;
            acc.type_str = String::new();
            acc.is_mut = false;
            acc.is_ref = false;
            assert(acc.type_str@ =~= Seq::<char>::empty());
        } else if acc.name.is_some() && acc.type_str.as_str().unicode_len() == 0 && str_equals(t, "&") {
            acc.is_ref = true;
        } else if acc.name.is_some() && acc.type_str.as_str().unicode_len() == 0 && str_equals(t, "mut") {
            acc.is_mut = true;
        } else if acc.name.is_some() && !str_equals(t, ":") {
            acc.type_str.append(" ");
            acc.type_str.append(t);
        }
    }

    /// Documents the parameters of the function whose parameter list is
    /// `line` (see `parameters_spec`); a malformed list is a `Parse` error
    /// and changes nothing.
    #[verifier::rlimit(100)]
    pub fn process_parameters(&mut self, line: &str) -> (r: Result<(), Error>)
        requires
            doc_wf(old(self)@),
        ensures
            doc_wf(final(self)@),
            match parameters_spec(old(self)@, line@) {
                Some(v) => r is Ok && final(self)@ == v,
                None => r matches Err(e) && e.is_parse() && final(self)@ == old(self)@,
            },
    {
        let blen_l = line.len();
        if blen_l < 3 {
            return Ok(());
        }
        let inner = substring_of(line, 1, blen_l - 1);
        let elems = match tokenize(inner) {
            Some(e) => e,
            None => return Err(parse_error("invalid token stream in parameters")),
        };
        let ghost e = strs_view(elems@);
        let ghost v0 = self@;
        let n = elems.len();
        if n == 0 {
            return Err(parse_error("expected parameters between the brackets"));
        }
        proof {
            reveal_strlit("&");
            reveal_strlit(",");
        }
        let mut itt: usize = 0;
        let mut seqno: usize = 0;
        if n > 0 {
            assert(elems@[0]@ == e[0]);
        }
        let has_self = n > 0 && str_equals(elems[0].as_str(), "&");
        if has_self {
            if n <= 1 {
                return Err(parse_error("expected at least 2 elements in fn params"));
            }
            itt = 1;
            let mut is_mut = false;
            let name = self.name.clone();
            while itt < n
                invariant
                    n == elems@.len(),
                    e == strs_view(elems@),
                    1 <= itt <= n,
                    seqno <= itt,
                    doc_wf(self@),
                    name@ == v0.name,
                    self@ == (DocView { inputs: self@.inputs, ..v0 }),
                    self_scan(e, 1, v0.inputs, false, 0, v0.name) == self_scan(
                        e,
                        itt as nat,
                        self@.inputs,
                        is_mut,
                        seqno as nat,
                        v0.name,
                    ),
                ensures
                    itt <= n,
                    seqno <= itt,
                    doc_wf(self@),
                    self@ == (DocView { inputs: self@.inputs, ..v0 }),
                    self_scan(e, 1, v0.inputs, false, 0, v0.name) == (itt as nat, self@.inputs, seqno as nat),
                decreases n - itt,
            {
                assert(elems@[itt as int]@ == e[itt as int]);
                if str_equals(elems[itt].as_str(), ",") {
                    break;
                }
                self.self_token(
                    elems[itt].as_str(),
                    &mut is_mut,
                    &mut seqno,
                    name.as_str(),
                    Ghost(e),
                    Ghost(itt as nat),
                );
                itt = itt + 1;
            }
        }
        let ghost start = (itt as nat, self@.inputs, seqno as nat);
        assert(start == if n > 0 && e[0] == "&"@ {
            self_scan(e, 1, v0.inputs, false, 0, v0.name)
        } else {
            (0nat, v0.inputs, 0nat)
        });
        let mut acc = ParamAcc { name: None, is_mut: false, is_ref: false, type_str: String::new(), seqno };
        proof {
            reveal_strlit("");
        }
        assert(scan_of(self@.inputs, &acc) == ParamScan {
            inputs: start.1,
            seqno: start.2,
            name: None,
            is_mut: false,
            is_ref: false,
            type_str: Seq::empty(),
        });
        while itt < n
            invariant
                n == elems@.len(),
                e == strs_view(elems@),
                itt <= n,
                acc.seqno <= itt,
                doc_wf(self@),
                self@ == (DocView { inputs: self@.inputs, ..v0 }),
                param_scan(
                    e,
                    start.0,
                    ParamScan {
                        inputs: start.1,
                        seqno: start.2,
                        name: None,
                        is_mut: false,
                        is_ref: false,
                        type_str: Seq::empty(),
                    },
                ) == param_scan(e, itt as nat, scan_of(self@.inputs, &acc)),
            decreases n - itt,
        {
            assert(elems@[itt as int]@ == e[itt as int]);
            self.param_token(elems[itt].as_str(), &mut acc);
            itt = itt + 1;
        }
        match &acc.name {
            Some(nm) => {
                self.add_name_value(nm.as_str(), acc.type_str.as_str(), acc.is_ref, acc.is_mut, acc.seqno);
            },
            None => {},
        }
        Ok(())
    }
}

/// `s` with the replacements `reps` made one after the other.
pub open spec fn replace_each(s: Seq<char>, reps: Seq<(Seq<char>, Seq<char>)>) -> Seq<char>
    decreases reps.len(),
{
    if reps.len() == 0 {
        s
    } else {
        replace_all(replace_each(s, reps.drop_last()), reps.last().0, reps.last().1)
    }
}

/// `sorted` with `x` inserted after the parameters whose place is not after
/// that of `x`.
pub open spec fn insert_by_seqno(sorted: Seq<InputView>, x: InputView) -> Seq<InputView>
    decreases sorted.len(),
{
    if sorted.len() == 0 {
        seq![x]
    } else if sorted.last().seqno <= x.seqno {
        sorted.push(x)
    } else {
        insert_by_seqno(sorted.drop_last(), x).push(sorted.last())
    }
}

/// The parameters ordered by their place in the parameter list; parameters
/// with the same place keep the order in which they were documented.
pub open spec fn by_seqno(inputs: Seq<InputView>) -> Seq<InputView>
    decreases inputs.len(),
{
    if inputs.len() == 0 {
        Seq::empty()
    } else {
        insert_by_seqno(by_seqno(inputs.drop_last()), inputs.last())
    }
}

/// `s` is ordered by the parameters' places in the parameter list.
pub open spec fn seqno_sorted(s: Seq<InputView>) -> bool {
    forall|i: int, j: int| 0 <= i < j < s.len() ==> #[trigger] s[i].seqno <= #[trigger] s[j].seqno
}

/// The largest place among `x` and the parameters of the ordered `sorted`.
spec fn top_seqno(sorted: Seq<InputView>, x: InputView) -> usize {
    if sorted.len() == 0 || sorted.last().seqno <= x.seqno {
        x.seqno
    } else {
        sorted.last().seqno
    }
}

proof fn lemma_insert_by_seqno(sorted: Seq<InputView>, x: InputView)
    requires
        seqno_sorted(sorted),
    ensures
        seqno_sorted(insert_by_seqno(sorted, x)),
        insert_by_seqno(sorted, x).to_multiset() == sorted.to_multiset().insert(x),
        forall|i: int|
            0 <= i < insert_by_seqno(sorted, x).len() ==> #[trigger] insert_by_seqno(sorted, x)[i].seqno
                <= top_seqno(sorted, x),
    decreases sorted.len(),
{
    broadcast use vstd::seq_lib::group_to_multiset_ensures;

    if sorted.len() == 0 {
        assert(seq![x] =~= Seq::<InputView>::empty().push(x));
        assert(Seq::<InputView>::empty().to_multiset() =~= vstd::multiset::Multiset::empty());
    } else if sorted.last().seqno <= x.seqno {
        let r = sorted.push(x);
        assert forall|i: int| 0 <= i < r.len() implies #[trigger] r[i].seqno <= top_seqno(sorted, x) by {
            if i < sorted.len() {
                assert(sorted[i].seqno <= sorted[sorted.len() - 1].seqno || i == sorted.len() - 1);
            }
        }
    } else {
        let d = sorted.drop_last();
        let l = sorted.last();
        assert(seqno_sorted(d));
        lemma_insert_by_seqno(d, x);
        let r0 = insert_by_seqno(d, x);
        let r = r0.push(l);
        assert forall|i: int| 0 <= i < r0.len() implies #[trigger] r0[i].seqno <= l.seqno by {
            assert(r0[i].seqno <= top_seqno(d, x));
            if d.len() > 0 {
                assert(d.last() == sorted[sorted.len() - 2]);
            }
        }
        assert forall|i: int, j: int| 0 <= i < j < r.len() implies #[trigger] r[i].seqno <= #[trigger] r[j].seqno by {
            if j < r0.len() {
                assert(r0[i].seqno <= r0[j].seqno);
            } else {
                assert(r0[i].seqno <= l.seqno);
            }
        }
        assert(sorted =~= d.push(l));
        assert forall|i: int| 0 <= i < r.len() implies #[trigger] r[i].seqno <= top_seqno(sorted, x) by {
            if i < r0.len() {
                assert(r0[i].seqno <= l.seqno);
            }
        }
    }
}

proof fn lemma_by_seqno(inputs: Seq<InputView>)
    ensures
        seqno_sorted(by_seqno(inputs)),
        by_seqno(inputs).to_multiset() == inputs.to_multiset(),
    decreases inputs.len(),
{
    broadcast use vstd::seq_lib::group_to_multiset_ensures;

    if inputs.len() == 0 {
        assert(Seq::<InputView>::empty().to_multiset() =~= vstd::multiset::Multiset::empty());
        assert(inputs =~= Seq::<InputView>::empty());
    } else {
        lemma_by_seqno(inputs.drop_last());
        lemma_insert_by_seqno(by_seqno(inputs.drop_last()), inputs.last());
        assert(inputs =~= inputs.drop_last().push(inputs.last()));
    }
}

/// The line documenting one parameter.
pub open spec fn input_line(i: InputView) -> Seq<char> {
    "\n/// * `"@ + i.name + "` - ["@ + (if i.is_ref {
        "&"@
    } else {
        Seq::empty()
    }) + (if i.is_mut {
        "mut "@
    } else {
        Seq::empty()
    }) + "[`"@ + i.type_str + "`]] "@ + (if i.text.len() > 0 {
        "-"@
    } else {
        Seq::empty()
    }) + " "@ + i.text
}

/// The lines documenting the parameters `s`, in order.
pub open spec fn input_lines(s: Seq<InputView>) -> Seq<char>
    decreases s.len(),
{
    if s.len() == 0 {
        Seq::empty()
    } else {
        input_lines(s.drop_last()) + input_line(s.last())
    }
}

/// `ret` with `section` inserted at the doc point `dp` (counted in
/// characters up to the byte length of `ret`).
pub open spec fn insert_at(ret: Seq<char>, dp: usize, section: Seq<char>) -> Seq<char> {
    spec_substring(ret, 0, dp as int) + section + spec_substring(ret, dp as int, blen(ret) as int)
}

/// The text with the sections collected for a function inserted at the doc
/// point `dp`: `Also See`, then `Errors`, then `Return`, then `Input
/// Parameters`, each inserted at the doc point (so that they end up in the
/// reverse order).
pub open spec fn print_ret(
    ret: Seq<char>,
    dp: usize,
    see: Seq<char>,
    error: Seq<char>,
    rts: Seq<char>,
    return_str: Seq<char>,
    inputs: Seq<InputView>,
) -> Seq<char> {
    let r1 = if see.len() > 0 {
        insert_at(ret, dp, "\n///\n/// # Also See\n///"@ + see) + "\n"@
    } else {
        ret
    };
    let r2 = if error.len() > 0 {
        insert_at(r1, dp, "\n///\n/// # Errors\n///"@ + error)
    } else {
        r1
    };
    let r3 = if return_str.len() > 0 || rts.len() > 0 {
        insert_at(
            r2,
            dp,
            "\n///\n/// # Return\n/// `"@ + rts + "` "@ + (if return_str.len() > 0 {
                " - "@
            } else {
                Seq::empty()
            }) + return_str,
        )
    } else {
        r2
    };
    if inputs.len() > 0 {
        insert_at(r3, dp, "\n/// # Input Parameters\n///"@ + input_lines(by_seqno(inputs)))
    } else {
        r3
    }
}

/// The parameters are documented in the order of their places in the
/// signature, whatever order they were documented in: writing the sections
/// gives the text written without parameters, with an `Input Parameters`
/// section inserted at the doc point that holds the line of each parameter
/// once, ordered by place.
pub proof fn law_parameters_in_signature_order(v: DocView)
    requires
        v.inputs.len() > 0,
    ensures
        exists|s: Seq<InputView>|
            #[trigger] seqno_sorted(s) && s.to_multiset() == v.inputs.to_multiset() && print_doc_spec(v).ret
                == insert_at(
                print_doc_spec(DocView { inputs: Seq::empty(), ..v }).ret,
                v.doc_point,
                "\n/// # Input Parameters\n///"@ + input_lines(s),
            ),
{
    lemma_by_seqno(v.inputs);
    let s = by_seqno(v.inputs);
    assert(seqno_sorted(s) && s.to_multiset() == v.inputs.to_multiset() && print_doc_spec(v).ret == insert_at(
        print_doc_spec(DocView { inputs: Seq::empty(), ..v }).ret,
        v.doc_point,
        "\n/// # Input Parameters\n///"@ + input_lines(s),
    ));
}

/// Writing the sections collected for a function at its doc point (see
/// `print_ret`; return types get the replacements), and starting again with
/// nothing collected.
pub open spec fn print_doc_spec(v: DocView) -> DocView {
    let rts = replace_each(v.return_type_str, v.replacements);
    let wrote_return = v.return_str.len() > 0 || rts.len() > 0;
    DocView {
        ret: print_ret(v.ret, v.doc_point, v.see_str, v.error_str, rts, v.return_str, v.inputs),
        see_str: Seq::empty(),
        error_str: Seq::empty(),
        return_str: if wrote_return {
            Seq::empty()
        } else {
            v.return_str
        },
        return_type_str: if wrote_return {
            Seq::empty()
        } else {
            v.return_type_str
        },
        inputs: Seq::empty(),
        doc_point: 0,
        ..v
    }
}

fn insert_at_exec(ret: &String, dp: usize, section: &str) -> (r: String)
    ensures
        r@ == insert_at(ret@, dp, section@),
{
    let n = ret.as_str().len();
    let mut r = String::from_str(substring_of(ret.as_str(), 0, dp));
    r.append(section);
    r.append(substring_of(ret.as_str(), dp, n));
    r
}

fn sort_by_seqno(inputs: &Vec<Input>) -> (r: Vec<Input>)
    ensures
        inputs_view(r@) == by_seqno(inputs_view(inputs@)),
{
    let n = inputs.len();
    let mut out: Vec<Input> = Vec::new();
    let mut i: usize = 0;
    while i < n
        invariant
            n == inputs@.len(),
            i <= n,
            inputs_view(out@) == by_seqno(inputs_view(inputs@).take(i as int)),
        decreases n - i,
    {
        let ghost before = inputs_view(out@);
        let x = Input {
            name: inputs[i].name.clone(),
            text: inputs[i].text.clone(),
            type_str: inputs[i].type_str.clone(),
            is_mut: inputs[i].is_mut,
            is_ref: inputs[i].is_ref,
            seqno: inputs[i].seqno,
        };
        let mut pos = out.len();
        assert(before.take(pos as int) =~= before);
        assert(before.skip(pos as int) =~= Seq::<InputView>::empty());
        assert(insert_by_seqno(before, x@) + Seq::<InputView>::empty() =~= insert_by_seqno(before, x@));
        while pos > 0 && out[pos - 1].seqno > x.seqno
            invariant
                pos <= out@.len(),
                inputs_view(out@) == before,
                insert_by_seqno(before, x@) == insert_by_seqno(before.take(pos as int), x@) + before.skip(
                    pos as int,
                ),
            decreases pos,
        {
            proof {
                let t = before.take(pos as int);
                assert(t.last() == before[pos - 1]);
                assert(t.drop_last() =~= before.take(pos - 1));
                assert(before.skip(pos - 1) =~= seq![before[pos - 1]] + before.skip(pos as int));
                assert(insert_by_seqno(t, x@) == insert_by_seqno(t.drop_last(), x@).push(t.last()));
                assert(insert_by_seqno(t.drop_last(), x@).push(t.last()) + before.skip(pos as int)
                    =~= insert_by_seqno(before.take(pos - 1), x@) + before.skip(pos - 1));
            }
            pos = pos - 1;
        }
        proof {
            let t = before.take(pos as int);
            if pos > 0 {
                assert(t.last() == before[pos - 1]);
                assert(insert_by_seqno(t, x@) == t.push(x@));
            } else {
                assert(t =~= Seq::<InputView>::empty());
                assert(insert_by_seqno(t, x@) == seq![x@]);
            }
        }
        out.insert(pos, x);
        proof {
            let t = before.take(pos as int);
            assert(inputs_view(out@) =~= t.push(x@) + before.skip(pos as int));
            let pre = inputs_view(inputs@).take(i + 1);
            assert(pre.drop_last() =~= inputs_view(inputs@).take(i as int));
            assert(pre.last() == x@);
        }
        i = i + 1;
    }
    assert(inputs_view(inputs@).take(n as int) =~= inputs_view(inputs@));
    out
}

fn input_lines_exec(s: &Vec<Input>) -> (r: String)
    ensures
        r@ == input_lines(inputs_view(s@)),
{
    proof {
        reveal_strlit("");
        reveal_strlit("&");
        reveal_strlit("mut ");
        reveal_strlit("-");
    }
    let n = s.len();
    let mut out = String::new();
    let mut i: usize = 0;
    while i < n
        invariant
            n == s@.len(),
            i <= n,
            out@ == input_lines(inputs_view(s@).take(i as int)),
        decreases n - i,
    {
        let ghost before = out@;
        out.append("\n/// * `");
        out.append(s[i].name.as_str());
        out.append("` - [");
        if s[i].is_ref {
            out.append("&");
        }
        if s[i].is_mut {
            out.append("mut ");
        }
        out.append("[`");
        out.append(s[i].type_str.as_str());
        out.append("`]] ");
        if s[i].text.as_str().unicode_len() > 0 {
            out.append("-");
        }
        out.append(" ");
        out.append(s[i].text.as_str());
        proof {
            let pre = inputs_view(s@).take(i + 1);
            assert(pre.drop_last() =~= inputs_view(s@).take(i as int));
            assert(pre.last() == s@[i as int]@);
            assert(out@ =~= before + input_line(s@[i as int]@));
        }
        i = i + 1;
    }
    assert(inputs_view(s@).take(n as int) =~= inputs_view(s@));
    out
}

fn print_ret_exec(
    ret: &String,
    dp: usize,
    see: &str,
    error: &str,
    rts: &str,
    return_str: &str,
    inputs: &Vec<Input>,
) -> (r: String)
    ensures
        r@ == print_ret(ret@, dp, see@, error@, rts@, return_str@, inputs_view(inputs@)),
{
    proof {
        reveal_strlit("");
        reveal_strlit(" - ");
        reveal_strlit("\n");
    }
    let mut cur = ret.clone();
    if see.unicode_len() > 0 {
        let mut section = String::from_str("\n///\n/// # Also See\n///");
        section.append(see);
        let mut r = insert_at_exec(&cur, dp, section.as_str());
        r.append("\n");
        cur = r;
    }
    if error.unicode_len() > 0 {
        let mut section = String::from_str("\n///\n/// # Errors\n///");
        section.append(error);
        cur = insert_at_exec(&cur, dp, section.as_str());
    }
    if return_str.unicode_len() > 0 || rts.unicode_len() > 0 {
        let mut section = String::from_str("\n///\n/// # Return\n/// `");
        section.append(rts);
        section.append("` ");
        if return_str.unicode_len() > 0 {
            section.append(" - ");
        }
        section.append(return_str);
        cur = insert_at_exec(&cur, dp, section.as_str());
    }
    if inputs.len() > 0 {
        let sorted = sort_by_seqno(inputs);
        let lines = input_lines_exec(&sorted);
        let mut section = String::from_str("\n/// # Input Parameters\n///");
        section.append(lines.as_str());
        cur = insert_at_exec(&cur, dp, section.as_str());
    }
    cur
}

fn replace_each_exec(s: &String, reps: &Vec<(String, String)>) -> (r: String)
    requires
        forall|i: int| 0 <= i < reps@.len() ==> (#[trigger] reps@[i]).0@.len() > 0,
    ensures
        r@ == replace_each(s@, reps_view(reps@)),
{
    let ghost rv = reps_view(reps@);
    let mut rts = s.clone();
    let nrep = reps.len();
    let mut k: usize = 0;
    while k < nrep
        invariant
            nrep == reps@.len(),
            k <= nrep,
            rv == reps_view(reps@),
            forall|i: int| 0 <= i < reps@.len() ==> (#[trigger] reps@[i]).0@.len() > 0,
            rts@ == replace_each(s@, rv.take(k as int)),
        decreases nrep - k,
    {
        assert(reps@[k as int].0@.len() > 0);
        let next = replace_str(rts.as_str(), reps[k].0.as_str(), reps[k].1.as_str());
        proof {
            let t = rv.take(k + 1);
            assert(t.drop_last() =~= rv.take(k as int));
            assert(t.last() == rv[k as int]);
        }
        rts = next;
        k = k + 1;
    }
    assert(rv.take(nrep as int) =~= rv);
    rts
}

impl DocState {
    /// Writes the sections collected for the current function at its doc
    /// point (see `print_doc_spec`).
    pub fn print_doc(&mut self)
        requires
            doc_wf(old(self)@),
        ensures
            doc_wf(final(self)@),
            final(self)@ == print_doc_spec(old(self)@),
    {
        let ghost v = self@;
        assert forall|i: int| 0 <= i < self.replacements@.len() implies (#[trigger] self.replacements@[i]).0@.len() > 0 by {
            assert(v.replacements[i] == (self.replacements@[i].0@, self.replacements@[i].1@));
        }
        let rts = replace_each_exec(&self.return_type_str, &self.replacements);
        let ret = print_ret_exec(
            &self.ret,
            self.doc_point,
            self.see_str.as_str(),
            self.error_str.as_str(),
            rts.as_str(),
            self.return_str.as_str(),
            &self.inputs,
        );
        let wrote_return = self.return_str.as_str().unicode_len() > 0 || rts.as_str().unicode_len() > 0;
        self.ret = ret;
        self.see_str = String::new();
        self.error_str = String::new();
        if wrote_return {
            self.return_str = String::new();
            self.return_type_str = String::new();
        }
        self.inputs = Vec::new();
        self.doc_point = 0;
        proof {
            assert(inputs_view(self.inputs@) =~= Seq::<InputView>::empty());
            assert(self@.see_str =~= Seq::<char>::empty());
            assert(self@.error_str =~= Seq::<char>::empty());
            assert(self@.replacements == v.replacements);
            assert(names_unique(self@.inputs));
        }
    }
}

/// `p` starts `s`.
pub open spec fn starts_with(s: Seq<char>, p: Seq<char>) -> bool {
    p.len() <= s.len() && s.subrange(0, p.len() as int) == p
}

fn str_starts_with(s: &str, p: &str) -> (r: bool)
    ensures
        r == starts_with(s@, p@),
{
    let n = s.unicode_len();
    let m = p.unicode_len();
    if m > n {
        return false;
    }
    let pre = substring_of(s, 0, m);
    assert(pre@ == s@.subrange(0, m as int));
    str_equals(pre, p)
}

/// `n - 2`, or zero.
pub open spec fn less_two(n: usize) -> int {
    if n >= 2 {
        n - 2
    } else {
        0
    }
}

/// The first part of reading a token of a group: `doc = "..."` lines, and
/// the name and parameters of a function.
pub open spec fn item_doc_fn_spec(v: DocView, s: Seq<char>) -> Option<DocView> {
    if s == "doc"@ {
        Some(DocView { expect_doc_equal: true, ..v })
    } else if v.expect_doc_equal {
        if s != "="@ {
            None
        } else {
            Some(DocView { expect_doc_equal: false, expect_doc_line: true, ..v })
        }
    } else if v.expect_doc_line {
        if !is_string_lit(s) {
            None
        } else {
            Some(DocView { expect_doc_line: false, ret: v.ret + doc_line(s), ..v })
        }
    } else if s == "fn"@ {
        Some(marked(DocView { expect_fn_name: true, ..v }))
    } else if v.expect_fn_name {
        Some(DocView { expect_fn_name: false, expect_parameters: true, ..v })
    } else if v.expect_parameters {
        match parameters_spec(v, s) {
            None => None,
            Some(v1) => Some(DocView { expect_parameters: false, ..v1 }),
        }
    } else {
        Some(v)
    }
}

/// The second part: the tokens of a return type are collected, and a `;`
/// ends a function, whose sections are then written.
pub open spec fn item_return_spec(v: DocView, s: Seq<char>) -> DocView {
    if s != ";"@ && v.expect_return_type {
        DocView { return_type_str: v.return_type_str + " "@ + s + " "@, ..v }
    } else if s == ";"@ {
        print_doc_spec(v)
    } else {
        v
    }
}

/// The third part: attributes are read, and other tokens are written out
/// (`->` without spaces inside, and starting the return type).
pub open spec fn item_attr_spec(v: DocView, s: Seq<char>) -> Option<DocView> {
    if v.expect_add_doc {
        let end = less_one(blen(s));
        if 1 >= end {
            None
        } else {
            match add_doc_spec(v, spec_substring(s, 1, end)) {
                None => None,
                Some(v1) => Some(DocView { expect_add_doc: false, ..v1 }),
            }
        }
    } else if s == "#"@ {
        Some(DocView { in_hash: true, ..v })
    } else if v.in_hash {
        if s != "="@ && s != "doc"@ && s != "add_doc"@ {
            let v1 = DocView { in_hash: false, ..v };
            if starts_with(s, "[add_doc("@) {
                let end = less_two(blen(s));
                if 9 >= end {
                    None
                } else {
                    add_doc_spec(v1, spec_substring(s, 9, end))
                }
            } else if starts_with(s, "[doc ="@) {
                let end = less_one(blen(s));
                if 7 >= end {
                    None
                } else {
                    let lit = spec_substring(s, 7, end);
                    if !is_string_lit(lit) {
                        None
                    } else {
                        Some(DocView { ret: v1.ret + doc_line(lit), ..v1 })
                    }
                }
            } else if s == "macro_export"@ {
                let v2 = marked(v1);
                Some(DocView { ret: v2.ret + "\n#[macro_export]"@, ..v2 })
            } else {
                Some(v1)
            }
        } else if s == "add_doc"@ {
            Some(DocView { expect_add_doc: true, ..v })
        } else {
            Some(v)
        }
    } else if s == "-"@ || s == "="@ {
        Some(DocView { ret: v.ret + s, last_dash: true, ..v })
    } else if s == ">"@ {
        let v1 = if v.last_dash {
            DocView { expect_return_type: true, return_type_str: Seq::empty(), ..v }
        } else {
            v
        };
        Some(DocView { ret: v1.ret + s + " "@, ..v1 })
    } else {
        Some(DocView { ret: v.ret + "\n"@ + s + " "@, ..v })
    }
}

/// The last part: a `-` is remembered for the next token, and a `;` ends
/// the return type.
pub open spec fn item_end_spec(v: DocView, s: Seq<char>) -> DocView {
    DocView {
        last_dash: if s != "-"@ {
            false
        } else {
            v.last_dash
        },
        expect_return_type: if s == ";"@ {
            false
        } else {
            v.expect_return_type
        },
        ..v
    }
}

/// Reading the token `s` of a group; `None` when it is malformed.
pub open spec fn group_item_spec(v: DocView, s: Seq<char>) -> Option<DocView> {
    match item_doc_fn_spec(v, s) {
        None => None,
        Some(v1) => match item_attr_spec(item_return_spec(v1, s), s) {
            None => None,
            Some(v3) => Some(item_end_spec(v3, s)),
        },
    }
}

impl DocState {
    fn item_doc_fn(&mut self, s: &str) -> (r: Result<(), Error>)
        requires
            doc_wf(old(self)@),
        ensures
            doc_wf(final(self)@),
            match item_doc_fn_spec(old(self)@, s@) {
                Some(v) => r is Ok && final(self)@ == v,
                None => r matches Err(e) && e.is_parse(),
            },
    {
        proof {
            reveal_strlit("doc");
            reveal_strlit("=");
            reveal_strlit("fn");
        }
        if str_equals(s, "doc") {
            self.expect_doc_equal = true;
        } else if self.expect_doc_equal {
            if !str_equals(s, "=") {
                return Err(parse_error("expected an equal symbol here"));
            }
            self.expect_doc_equal = false;
            self.expect_doc_line = true;
        } else if self.expect_doc_line {
            self.expect_doc_line = false;
            let value = match string_lit(s) {
                Some(v) => v,
                None => return Err(parse_error("invalid string literal")),
            };
            self.process_doc(value.as_str());
        } else if str_equals(s, "fn") {
            self.expect_fn_name = true;
            self.mark_doc();
        } else if self.expect_fn_name {
            self.expect_fn_name = false;
            self.expect_parameters = true;
        } else if self.expect_parameters {
            match self.process_parameters(s) {
                Ok(()) => {},
                Err(e) => return Err(e),
            }
            self.expect_parameters = false;
        }
        Ok(())
    }

    fn item_return(&mut self, s: &str)
        requires
            doc_wf(old(self)@),
        ensures
            doc_wf(final(self)@),
            final(self)@ == item_return_spec(old(self)@, s@),
    {
        proof {
            reveal_strlit(";");
            reveal_strlit(" ");
        }
        if !str_equals(s, ";") && self.expect_return_type {
            self.return_type_str.append(" ");
            self.return_type_str.append(s);
            self.return_type_str.append(" ");
        } else if str_equals(s, ";") {
            self.print_doc();
        }
        assert(self@.replacements == old(self)@.replacements);
    }

    /// The attribute `[add_doc(...)]` read after a `#`.
    fn hashed_add_doc(&mut self, s: &str) -> (r: Result<(), Error>)
        requires
            doc_wf(old(self)@),
        ensures
            doc_wf(final(self)@),
            match (if 9 >= less_two(blen(s@)) {
                None
            } else {
                add_doc_spec(old(self)@, spec_substring(s@, 9, less_two(blen(s@))))
            }) {
                Some(v) => r is Ok && final(self)@ == v,
                None => r matches Err(e) && e.is_parse(),
            },
    {
        let end = s.len().saturating_sub(2);
        if 9 >= end {
            return Err(parse_error("invalid syntax in add_doc"));
        }
        self.process_add_doc(substring_of(s, 9, end))
    }

    /// The attribute `[doc = "..."]` read after a `#`.
    fn hashed_doc(&mut self, s: &str) -> (r: Result<(), Error>)
        requires
            doc_wf(old(self)@),
        ensures
            doc_wf(final(self)@),
            match (if 7 >= less_one(blen(s@)) {
                None
            } else if !is_string_lit(spec_substring(s@, 7, less_one(blen(s@)))) {
                None
            } else {
                Some(DocView { ret: old(self)@.ret + doc_line(spec_substring(s@, 7, less_one(blen(s@)))), ..old(self)@ })
            }) {
                Some(v) => r is Ok && final(self)@ == v,
                None => r matches Err(e) && e.is_parse(),
            },
    {
        let end = s.len().saturating_sub(1);
        if 7 >= end {
            return Err(parse_error("invalid syntax in doc"));
        }
        let lit = substring_of(s, 7, end);
        let value = match string_lit(lit) {
            Some(v) => v,
            None => return Err(parse_error("invalid string literal")),
        };
        self.process_doc(value.as_str());
        Ok(())
    }

    #[verifier::rlimit(100)]
    fn item_hashed(&mut self, s: &str) -> (r: Result<(), Error>)
        requires
            doc_wf(old(self)@),
            !old(self)@.expect_add_doc,
            old(self)@.in_hash,
            s@ != "#"@,
        ensures
            doc_wf(final(self)@),
            match item_attr_spec(old(self)@, s@) {
                Some(v) => r is Ok && final(self)@ == v,
                None => r matches Err(e) && e.is_parse(),
            },
    {
        proof {
            reveal_strlit("=");
            reveal_strlit("doc");
            reveal_strlit("add_doc");
            reveal_strlit("[add_doc(");
            reveal_strlit("[doc =");
            reveal_strlit("macro_export");
        }
        if !str_equals(s, "=") && !str_equals(s, "doc") && !str_equals(s, "add_doc") {
            self.in_hash = false;
            if str_starts_with(s, "[add_doc(") {
                return self.hashed_add_doc(s);
            } else if str_starts_with(s, "[doc =") {
                return self.hashed_doc(s);
            } else if str_equals(s, "macro_export") {
                self.mark_doc();
                self.ret.append("\n#[macro_export]");
            }
        } else if str_equals(s, "add_doc") {
            self.expect_add_doc = true;
        }
        assert(self@.replacements == old(self)@.replacements);
        Ok(())
    }

    fn item_write(&mut self, s: &str)
        requires
            doc_wf(old(self)@),
            !old(self)@.expect_add_doc,
            !old(self)@.in_hash,
            s@ != "#"@,
        ensures
            doc_wf(final(self)@),
            item_attr_spec(old(self)@, s@) == Some(final(self)@),
    {
        proof {
            reveal_strlit("=");
            reveal_strlit("-");
            reveal_strlit(">");
            reveal_strlit("");
            reveal_strlit(" ");
            reveal_strlit("\n");
        }
        if str_equals(s, "-") || str_equals(s, "=") {
            self.ret.append(s);
            self.last_dash = true;
        } else if str_equals(s, ">") {
            if self.last_dash {
                self.expect_return_type = true;
                self.return_type_str = String::new();
            }
            self.ret.append(s);
            self.ret.append(" ");
        } else {
            self.ret.append("\n");
            self.ret.append(s);
            self.ret.append(" ");
        }
        assert(self@.replacements == old(self)@.replacements);
    }

    fn item_attr(&mut self, s: &str) -> (r: Result<(), Error>)
        requires
            doc_wf(old(self)@),
        ensures
            doc_wf(final(self)@),
            match item_attr_spec(old(self)@, s@) {
                Some(v) => r is Ok && final(self)@ == v,
                None => r matches Err(e) && e.is_parse(),
            },
    {
        proof {
            reveal_strlit("#");
        }
        if self.expect_add_doc {
            let end = s.len().saturating_sub(1);
            if 1 >= end {
                return Err(parse_error("unexpected syntax in add_doc"));
            }
            match self.process_add_doc(substring_of(s, 1, end)) {
                Ok(()) => {},
                Err(e) => return Err(e),
            }
            self.expect_add_doc = false;
            assert(self@.replacements == old(self)@.replacements);
            Ok(())
        } else if str_equals(s, "#") {
            self.in_hash = true;
            assert(self@.replacements == old(self)@.replacements);
            Ok(())
        } else if self.in_hash {
            self.item_hashed(s)
        } else {
            self.item_write(s);
            Ok(())
        }
    }

    fn item_end(&mut self, s: &str)
        requires
            doc_wf(old(self)@),
        ensures
            doc_wf(final(self)@),
            final(self)@ == item_end_spec(old(self)@, s@),
    {
        proof {
            reveal_strlit("-");
            reveal_strlit(";");
        }
        if !str_equals(s, "-") {
            self.last_dash = false;
        }
        if str_equals(s, ";") {
            self.expect_return_type = false;
        }
        assert(self@.replacements == old(self)@.replacements);
    }

    /// Reads the token `s` of a group (see `group_item_spec`); a malformed
    /// one is a `Parse` error.
    pub fn process_group_item(&mut self, s: &str) -> (r: Result<(), Error>)
        requires
            doc_wf(old(self)@),
        ensures
            doc_wf(final(self)@),
            match group_item_spec(old(self)@, s@) {
                Some(v) => r is Ok && final(self)@ == v,
                None => r matches Err(e) && e.is_parse(),
            },
    {
        match self.item_doc_fn(s) {
            Ok(()) => {},
            Err(e) => return Err(e),
        }
        self.item_return(s);
        match self.item_attr(s) {
            Ok(()) => {},
            Err(e) => return Err(e),
        }
        self.item_end(s);
        Ok(())
    }
}

/// A token tree of the item being documented: an identifier, a punctuation
/// character, a literal, or a group given by the texts of its token trees.
pub enum DocTree {
    Ident(String),
    Punct(char),
    Literal(String),
    Group(Vec<String>),
}

/// Reading an identifier: `pub` writes the sections of the function before
/// it; the identifier is written out; `trait` announces the trait's name,
/// which is the next identifier.
pub open spec fn ident_spec(v: DocView, id: Seq<char>) -> DocView {
    let v1 = if id == "pub"@ {
        print_doc_spec(marked(v))
    } else {
        v
    };
    let v2 = if id == "macro_rules"@ {
        DocView { ret: v1.ret + "\n"@ + id, in_macro_rules: true, ..v1 }
    } else {
        DocView { ret: v1.ret + "\n"@ + id + " "@, ..v1 }
    };
    if id == "trait"@ {
        DocView { in_trait: true, expect_name: true, ..v2 }
    } else if v2.expect_name {
        DocView { expect_name: false, name: id, ..v2 }
    } else {
        v2
    }
}

/// Reading a punctuation character: `#` starts an attribute, `!` is
/// written after the previous token, anything else on a line of its own.
pub open spec fn punct_spec(v: DocView, c: char) -> DocView {
    if c == '#' {
        DocView { in_hash: true, ..v }
    } else if c == '!' {
        DocView { ret: v.ret + seq![c], ..v }
    } else {
        DocView { ret: v.ret + "\n"@ + seq![c], ..v }
    }
}

/// Reading the tokens `items` of a group from the `k`-th on.
pub open spec fn group_items_spec(v: DocView, items: Seq<Seq<char>>, k: nat) -> Option<DocView>
    decreases items.len() - k,
{
    if k >= items.len() {
        Some(v)
    } else {
        match group_item_spec(v, items[k as int]) {
            None => None,
            Some(v1) => group_items_spec(v1, items, k + 1),
        }
    }
}

/// Reading a group: the body of a trait or of `macro_rules` is written in
/// braces, and its tokens are read in order.
pub open spec fn group_spec(v: DocView, items: Seq<Seq<char>>) -> Option<DocView> {
    let braced = v.in_trait || v.in_macro_rules;
    let v1 = DocView {
        ret: if braced {
            v.ret + "\n{"@
        } else {
            v.ret
        },
        in_macro_rules: false,
        in_trait: false,
        ..v
    };
    match group_items_spec(v1, items, 0) {
        None => None,
        Some(v2) => Some(
            if braced {
                DocView { ret: v2.ret + "\n}"@, ..v2 }
            } else {
                v2
            },
        ),
    }
}

/// The mathematical value of a token tree.
pub enum DocTreeView {
    Ident(Seq<char>),
    Punct(char),
    Literal(Seq<char>),
    Group(Seq<Seq<char>>),
}

impl View for DocTree {
    type V = DocTreeView;

    open spec fn view(&self) -> DocTreeView {
        match self {
            DocTree::Ident(s) => DocTreeView::Ident(s@),
            DocTree::Punct(c) => DocTreeView::Punct(*c),
            DocTree::Literal(s) => DocTreeView::Literal(s@),
            DocTree::Group(items) => DocTreeView::Group(strs_view(items@)),
        }
    }
}

/// Reading one token tree.
pub open spec fn tree_spec(v: DocView, t: DocTreeView) -> Option<DocView> {
    match t {
        DocTreeView::Ident(id) => Some(ident_spec(v, id)),
        DocTreeView::Punct(c) => Some(punct_spec(v, c)),
        DocTreeView::Literal(l) => Some(DocView { ret: v.ret + "\n"@ + l, ..v }),
        DocTreeView::Group(items) => group_spec(v, items),
    }
}

/// The values of the token trees `v`.
pub open spec fn trees_view(v: Seq<DocTree>) -> Seq<DocTreeView> {
    v.map_values(|t: DocTree| t@)
}

/// Reading the token trees `ts` from the `k`-th on.
pub open spec fn trees_spec(v: DocView, ts: Seq<DocTreeView>, k: nat) -> Option<DocView>
    decreases ts.len() - k,
{
    if k >= ts.len() {
        Some(v)
    } else {
        match tree_spec(v, ts[k as int]) {
            None => None,
            Some(v1) => trees_spec(v1, ts, k + 1),
        }
    }
}

impl DocState {
    fn ident_write(&mut self, id: &str)
        requires
            doc_wf(old(self)@),
        ensures
            doc_wf(final(self)@),
            final(self)@ == (if id@ == "macro_rules"@ {
                DocView { ret: old(self)@.ret + "\n"@ + id@, in_macro_rules: true, ..old(self)@ }
            } else {
                DocView { ret: old(self)@.ret + "\n"@ + id@ + " "@, ..old(self)@ }
            }),
    {
        proof {
            reveal_strlit("macro_rules");
            reveal_strlit("\n");
            reveal_strlit(" ");
        }
        if str_equals(id, "macro_rules") {
            self.ret.append("\n");
            self.ret.append(id);
            self.in_macro_rules = true;
        } else {
            self.ret.append("\n");
            self.ret.append(id);
            self.ret.append(" ");
        }
        assert(self@.replacements == old(self)@.replacements);
    }

    fn ident_name(&mut self, id: &str)
        requires
            doc_wf(old(self)@),
        ensures
            doc_wf(final(self)@),
            final(self)@ == (if id@ == "trait"@ {
                DocView { in_trait: true, expect_name: true, ..old(self)@ }
            } else if old(self)@.expect_name {
                DocView { expect_name: false, name: id@, ..old(self)@ }
            } else {
                old(self)@
            }),
    {
        proof {
            reveal_strlit("trait");
        }
        if str_equals(id, "trait") {
            self.in_trait = true;
            self.expect_name = true;
        } else if self.expect_name {
            self.expect_name = false;
            self.name = String::from_str(id);
        }
        assert(self@.replacements == old(self)@.replacements);
    }

    /// Reads an identifier (see `ident_spec`).
    #[verifier::rlimit(100)]
    pub fn process_ident(&mut self, id: &str)
        requires
            doc_wf(old(self)@),
        ensures
            doc_wf(final(self)@),
            final(self)@ == ident_spec(old(self)@, id@),
    {
        proof {
            reveal_strlit("pub");
        }
        if str_equals(id, "pub") {
            self.mark_doc();
            self.print_doc();
        }
        self.ident_write(id);
        self.ident_name(id);
    }

    /// Reads a punctuation character (see `punct_spec`).
    pub fn process_punct(&mut self, c: char)
        requires
            doc_wf(old(self)@),
        ensures
            doc_wf(final(self)@),
            final(self)@ == punct_spec(old(self)@, c),
    {
        if c == '#' {
            self.in_hash = true;
        } else {
            let text = punct_text(c);
            if c == '!' {
                self.ret.append(text.as_str());
            } else {
                self.ret.append("\n");
                self.ret.append(text.as_str());
            }
        }
        assert(self@.replacements == old(self)@.replacements);
    }

    /// Reads a literal: it is written on a line of its own.
    pub fn process_literal(&mut self, l: &str)
        requires
            doc_wf(old(self)@),
        ensures
            doc_wf(final(self)@),
            final(self)@ == (DocView { ret: old(self)@.ret + "\n"@ + l@, ..old(self)@ }),
    {
        self.ret.append("\n");
        self.ret.append(l);
        assert(self@.replacements == old(self)@.replacements);
    }

    fn group_open(&mut self) -> (braced: bool)
        requires
            doc_wf(old(self)@),
        ensures
            doc_wf(final(self)@),
            braced == (old(self)@.in_trait || old(self)@.in_macro_rules),
            final(self)@ == (DocView {
                ret: if braced {
                    old(self)@.ret + "\n{"@
                } else {
                    old(self)@.ret
                },
                in_macro_rules: false,
                in_trait: false,
                ..old(self)@
            }),
    {
        let braced = self.in_trait || self.in_macro_rules;
        if braced {
            self.ret.append("\n{");
        }
        self.in_macro_rules = false;
        self.in_trait = false;
        assert(self@.replacements == old(self)@.replacements);
        braced
    }

    fn group_close(&mut self, braced: bool)
        requires
            doc_wf(old(self)@),
        ensures
            doc_wf(final(self)@),
            final(self)@ == if braced {
                DocView { ret: old(self)@.ret + "\n}"@, ..old(self)@ }
            } else {
                old(self)@
            },
    {
        if braced {
            self.ret.append("\n}");
        }
        assert(self@.replacements == old(self)@.replacements);
    }

    fn group_items(&mut self, items: &Vec<String>) -> (r: Result<(), Error>)
        requires
            doc_wf(old(self)@),
        ensures
            doc_wf(final(self)@),
            match group_items_spec(old(self)@, strs_view(items@), 0) {
                Some(v) => r is Ok && final(self)@ == v,
                None => r matches Err(e) && e.is_parse(),
            },
    {
        let ghost e = strs_view(items@);
        let ghost v1 = self@;
        let n = items.len();
        let mut k: usize = 0;
        while k < n
            invariant
                n == items@.len(),
                e == strs_view(items@),
                k <= n,
                doc_wf(self@),
                v1 == old(self)@,
                group_items_spec(v1, e, 0) == group_items_spec(self@, e, k as nat),
            decreases n - k,
        {
            assert(items@[k as int]@ == e[k as int]);
            let ghost before = self@;
            match self.process_group_item(items[k].as_str()) {
                Ok(()) => {},
                Err(err) => {
                    proof {
                        assert(group_item_spec(before, e[k as int]) is None);
                        assert(group_items_spec(before, e, k as nat) is None);
                    }
                    return Err(err);
                },
            }
            k = k + 1;
        }
        Ok(())
    }

    /// Reads a group whose token trees have the texts `items` (see
    /// `group_spec`); a malformed token is a `Parse` error.
    pub fn process_group(&mut self, items: &Vec<String>) -> (r: Result<(), Error>)
        requires
            doc_wf(old(self)@),
        ensures
            doc_wf(final(self)@),
            match group_spec(old(self)@, strs_view(items@)) {
                Some(v) => r is Ok && final(self)@ == v,
                None => r matches Err(e) && e.is_parse(),
            },
    {
        let braced = self.group_open();
        match self.group_items(items) {
            Ok(()) => {},
            Err(e) => return Err(e),
        }
        self.group_close(braced);
        Ok(())
    }

    /// Reads one token tree.
    pub fn process_tree(&mut self, t: &DocTree) -> (r: Result<(), Error>)
        requires
            doc_wf(old(self)@),
        ensures
            doc_wf(final(self)@),
            match tree_spec(old(self)@, t@) {
                Some(v) => r is Ok && final(self)@ == v,
                None => r matches Err(e) && e.is_parse(),
            },
    {
        match t {
            DocTree::Ident(id) => {
                self.process_ident(id.as_str());
                Ok(())
            },
            DocTree::Punct(c) => {
                self.process_punct(*c);
                Ok(())
            },
            DocTree::Literal(l) => {
                self.process_literal(l.as_str());
                Ok(())
            },
            DocTree::Group(items) => self.process_group(items),
        }
    }
}

/// `char::to_string`: the one-character string `c`.
#[verifier::external_body]
fn punct_text(c: char) -> (r: String)
    ensures
        r@ == seq![c],
{
    c.to_string()
}

/// The documentation of the item whose token trees are `trees`, with the
/// replacements `replacements` made in return types: the text starts with
/// an empty `add_doc` attribute, and each tree is read in order. A
/// replacement that replaces nothing, or a malformed attribute or doc line,
/// is a `Parse` error.
pub fn document(trees: &Vec<DocTree>, replacements: Vec<(String, String)>) -> (r: Result<String, Error>)
    ensures
        (forall|i: int| 0 <= i < replacements@.len() ==> (#[trigger] replacements@[i]).0@.len() > 0) ==> match trees_spec(
            initial_doc(reps_view(replacements@)),
            trees_view(trees@),
            0,
        ) {
            Some(v) => r matches Ok(s) && s@ == v.ret,
            None => r matches Err(e) && e.is_parse(),
        },
        !(forall|i: int| 0 <= i < replacements@.len() ==> (#[trigger] replacements@[i]).0@.len() > 0) ==> (r matches Err(
            e,
        ) && e.is_parse()),
{
    let ghost reps = reps_view(replacements@);
    let mut st = match DocState::new(replacements) {
        Ok(s) => s,
        Err(e) => return Err(e),
    };
    let ghost ts = trees_view(trees@);
    let ghost v0 = st@;
    assert(v0 == initial_doc(reps));
    let n = trees.len();
    let mut k: usize = 0;
    while k < n
        invariant
            n == trees@.len(),
            ts == trees_view(trees@),
            k <= n,
            doc_wf(st@),
            v0 == initial_doc(reps),
            reps == reps_view(replacements@),
            trees_spec(v0, ts, 0) == trees_spec(st@, ts, k as nat),
        decreases n - k,
    {
        assert(trees@[k as int]@ == ts[k as int]);
        let ghost before = st@;
        match st.process_tree(&trees[k]) {
            Ok(()) => {},
            Err(e) => {
                proof {
                    assert(tree_spec(before, ts[k as int]) is None);
                    assert(trees_spec(before, ts, k as nat) is None);
                }
                return Err(e);
            },
        }
        k = k + 1;
    }
    Ok(st.ret)
}

/// The state before anything was read, with the replacements `reps`.
pub open spec fn initial_doc(reps: Seq<(Seq<char>, Seq<char>)>) -> DocView {
    DocView {
        ret: "#[add_doc(empty)]\n"@,
        in_hash: false,
        in_trait: false,
        expect_add_doc: false,
        expect_return_type: false,
        last_dash: false,
        doc_point: 0,
        expect_fn_name: false,
        expect_parameters: false,
        expect_doc_equal: false,
        expect_doc_line: false,
        expect_name: false,
        name: Seq::empty(),
        in_macro_rules: false,
        inputs: Seq::empty(),
        error_str: Seq::empty(),
        see_str: Seq::empty(),
        return_str: Seq::empty(),
        return_type_str: Seq::empty(),
        replacements: reps,
    }
}

} // verus!
