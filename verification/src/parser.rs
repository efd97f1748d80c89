//! The parsing pipeline: line classification, type-directive resolution,
//! value coercion, the line-by-line driver, and the typed accessors.
//!
//! The driver's behaviour is pinned by the specification functions
//! [`spec_step`], [`run_upto`] and [`spec_parse`]: processing is sequential,
//! the current declared type is the only state carried across lines, and any
//! error aborts the whole parse.

use vstd::prelude::*;

use crate::bytes::find_sep;
use crate::bytes::find_sep_bytes;
use crate::bytes::lower_seq;
use crate::bytes::trim;
use crate::errors::AccessError;
use crate::errors::AccessErrorModel;
use crate::errors::ParseError;
use crate::errors::ParseErrorModel;
use crate::values::ArgTag;
use crate::values::ArgType;
use crate::values::ValueModel;
use crate::values::int_literal_val;
use crate::values::is_false_lit;
use crate::values::is_float_literal;
use crate::values::is_i64_literal;
use crate::values::is_true_lit;

verus! {

/// The class of one raw line.
#[derive(Clone, Copy, Debug, PartialEq, Eq, Structural)]
pub enum LineKind {
    TYPE,
    ARGUMENT,
    COMMENT,
    BLANK,
}

/// The class of a line, if it has one: `#...` is a type directive, `//...`
/// a comment, an all-whitespace line is blank, and a line holding `:=` is
/// an assignment, in that order of precedence.
pub open spec fn spec_classify(s: Seq<u8>) -> Option<LineKind> {
    if s.len() >= 1 && s[0] == 35 {
        Some(LineKind::TYPE)
    } else if s.len() >= 2 && s[0] == 47 && s[1] == 47 {
        Some(LineKind::COMMENT)
    } else if trim(s).len() == 0 {
        Some(LineKind::BLANK)
    } else if find_sep(s) is Some {
        Some(LineKind::ARGUMENT)
    } else {
        None
    }
}

/// Classifies one raw line, or reports it as unrecognized.
pub fn classify(line: &[u8], line_no: usize) -> (r: Result<LineKind, ParseError>)
    ensures
        match spec_classify(line@) {
            Some(k) => r == Ok::<LineKind, ParseError>(k),
            None => r matches Err(e) && e@ == ParseErrorModel::UnrecognizedLine(
                line_no as nat,
                line@,
            ),
        },
{
    if line.len() >= 1 && line[0] == 35 {
        Ok(LineKind::TYPE)
    } else if line.len() >= 2 && line[0] == 47 && line[1] == 47 {
        Ok(LineKind::COMMENT)
    } else {
        let t = crate::bytes::trim_bytes(line);
        if t.len() == 0 {
            Ok(LineKind::BLANK)
        } else {
            match find_sep_bytes(line) {
                Some(_) => Ok(LineKind::ARGUMENT),
                None => Err(
                    ParseError::UnrecognizedLine {
                        line: line_no,
                        content: crate::bytes::copy_slice(line),
                    },
                ),
            }
        }
    }
}

/// The directive keyword `#int` in lowered bytes.
pub open spec fn is_kw_int(t: Seq<u8>) -> bool {
    t.len() == 4 && t[0] == 35 && t[1] == 105 && t[2] == 110 && t[3] == 116
}

/// The directive keyword `#str` in lowered bytes.
pub open spec fn is_kw_str(t: Seq<u8>) -> bool {
    t.len() == 4 && t[0] == 35 && t[1] == 115 && t[2] == 116 && t[3] == 114
}

/// The directive keyword `#string` in lowered bytes.
pub open spec fn is_kw_string(t: Seq<u8>) -> bool {
    t.len() == 7 && t[0] == 35 && t[1] == 115 && t[2] == 116 && t[3] == 114 && t[4] == 105
        && t[5] == 110 && t[6] == 103
}

/// The directive keyword `#bool` in lowered bytes.
pub open spec fn is_kw_bool(t: Seq<u8>) -> bool {
    t.len() == 5 && t[0] == 35 && t[1] == 98 && t[2] == 111 && t[3] == 111 && t[4] == 108
}

/// The directive keyword `#float` in lowered bytes.
pub open spec fn is_kw_float(t: Seq<u8>) -> bool {
    t.len() == 6 && t[0] == 35 && t[1] == 102 && t[2] == 108 && t[3] == 111 && t[4] == 97
        && t[5] == 116
}

/// The directive keyword `#vec` in lowered bytes.
pub open spec fn is_kw_vec(t: Seq<u8>) -> bool {
    t.len() == 4 && t[0] == 35 && t[1] == 118 && t[2] == 101 && t[3] == 99
}

/// The type a directive line declares, if any: the line is trimmed and
/// lowered, then matched against the fixed keyword table.
pub open spec fn spec_resolve(s: Seq<u8>) -> Option<ArgTag> {
    let t = lower_seq(trim(s));
    if is_kw_int(t) {
        Some(ArgTag::INTEGER)
    } else if is_kw_str(t) || is_kw_string(t) {
        Some(ArgTag::STRING)
    } else if is_kw_bool(t) {
        Some(ArgTag::BOOL)
    } else if is_kw_float(t) {
        Some(ArgTag::FLOAT)
    } else if is_kw_vec(t) {
        Some(ArgTag::VECTOR)
    } else {
        None
    }
}

/// Resolves a type directive to an empty marker of the declared type, or
/// reports an unknown directive.
pub fn resolve_type(line: &[u8], line_no: usize) -> (r: Result<ArgType, ParseError>)
    ensures
        match spec_resolve(line@) {
            Some(tag) => r matches Ok(a) && a.spec_tag() == tag && a.model() is None,
            None => r matches Err(e) && e@ == ParseErrorModel::UnknownTypeDirective(
                line_no as nat,
                line@,
            ),
        },
{
    let trimmed = crate::bytes::trim_bytes(line);
    let t = crate::bytes::lower_bytes(trimmed.as_slice());
    if t.len() == 4 && t[0] == 35 && t[1] == 105 && t[2] == 110 && t[3] == 116 {
        Ok(ArgType::INTEGER(None))
    } else if t.len() == 4 && t[0] == 35 && t[1] == 115 && t[2] == 116 && t[3] == 114 {
        Ok(ArgType::STRING(None))
    } else if t.len() == 7 && t[0] == 35 && t[1] == 115 && t[2] == 116 && t[3] == 114 && t[4]
        == 105 && t[5] == 110 && t[6] == 103 {
        Ok(ArgType::STRING(None))
    } else if t.len() == 5 && t[0] == 35 && t[1] == 98 && t[2] == 111 && t[3] == 111 && t[4]
        == 108 {
        Ok(ArgType::BOOL(None))
    } else if t.len() == 6 && t[0] == 35 && t[1] == 102 && t[2] == 108 && t[3] == 111 && t[4]
        == 97 && t[5] == 116 {
        Ok(ArgType::FLOAT(None))
    } else if t.len() == 4 && t[0] == 35 && t[1] == 118 && t[2] == 101 && t[3] == 99 {
        Ok(ArgType::VECTOR(None))
    } else {
        Err(
            ParseError::UnknownTypeDirective {
                line: line_no,
                content: crate::bytes::copy_slice(line),
            },
        )
    }
}

/// The name and raw value of an assignment line: the line is split at the
/// first `:=` and both sides are trimmed; the split fails when the
/// separator is absent or a side is empty.
pub open spec fn spec_split(line: Seq<u8>) -> Option<(Seq<u8>, Seq<u8>)> {
    match find_sep(line) {
        None => None,
        Some(i) => {
            let nm = trim(line.take(i));
            let vl = trim(line.skip(i + 2));
            if nm.len() == 0 || vl.len() == 0 {
                None
            } else {
                Some((nm, vl))
            }
        },
    }
}

/// Splits an assignment line into its trimmed name and raw value.
pub fn split_assignment(line: &[u8]) -> (r: Option<(Vec<u8>, Vec<u8>)>)
    ensures
        match r {
            Some(p) => spec_split(line@) == Some((p.0@, p.1@)),
            None => spec_split(line@) is None,
        },
{
    let n = line.len();
    match find_sep_bytes(line) {
        None => None,
        Some(i) => {
            proof {
                assert(i as int + 2 <= line@.len());
            }
            let nm = crate::bytes::trim_bytes(&line[0..i]);
            let vl = crate::bytes::trim_bytes(&line[i + 2..n]);
            proof {
                assert(line@.subrange(0, i as int) =~= line@.take(i as int));
                assert(line@.subrange(i + 2, line@.len() as int) =~= line@.skip(i + 2));
            }
            if nm.len() == 0 || vl.len() == 0 {
                None
            } else {
                Some((nm, vl))
            }
        },
    }
}

/// What coercing one assignment line yields under the current type: a
/// name/value entry, no entry at all for the unimplemented vector type, or
/// the error the raw value's grammar forces.
pub open spec fn spec_coerce(tag: ArgTag, line: Seq<u8>, ln: nat) -> Result<
    Option<(Seq<u8>, ValueModel)>,
    ParseErrorModel,
> {
    match spec_split(line) {
        None => Err(ParseErrorModel::MalformedAssignment(ln, line)),
        Some((nm, raw)) => match tag {
            ArgTag::STRING => Ok(Some((nm, ValueModel::VStr(raw)))),
            ArgTag::INTEGER => if is_i64_literal(raw) {
                Ok(Some((nm, ValueModel::VInt(int_literal_val(raw)))))
            } else {
                Err(ParseErrorModel::InvalidIntegerLiteral(ln, line))
            },
            ArgTag::FLOAT => if is_float_literal(raw) {
                Ok(Some((nm, ValueModel::VFloat(raw))))
            } else {
                Err(ParseErrorModel::InvalidFloatLiteral(ln, line))
            },
            ArgTag::BOOL => if is_true_lit(raw) {
                Ok(Some((nm, ValueModel::VBool(true))))
            } else if is_false_lit(raw) {
                Ok(Some((nm, ValueModel::VBool(false))))
            } else {
                Err(ParseErrorModel::InvalidBooleanLiteral(ln, line))
            },
            ArgTag::VECTOR => Ok(None),
        },
    }
}

/// Coerces one assignment line under the current declared type.
pub fn coerce(tag: ArgTag, line: &[u8], line_no: usize) -> (r: Result<
    Option<(Vec<u8>, ArgType)>,
    ParseError,
>)
    ensures
        match r {
            Ok(None) => spec_coerce(tag, line@, line_no as nat) == Ok::<
                Option<(Seq<u8>, ValueModel)>,
                ParseErrorModel,
            >(None),
            Ok(Some(p)) => p.1.model() matches Some(m) && spec_coerce(tag, line@, line_no as nat)
                == Ok::<Option<(Seq<u8>, ValueModel)>, ParseErrorModel>(Some((p.0@, m))),
            Err(e) => spec_coerce(tag, line@, line_no as nat) == Err::<
                Option<(Seq<u8>, ValueModel)>,
                ParseErrorModel,
            >(e@),
        },
{
    match split_assignment(line) {
        None => Err(
            ParseError::MalformedAssignment {
                line: line_no,
                content: crate::bytes::copy_slice(line),
            },
        ),
        Some((nm, vl)) => match tag {
            ArgTag::STRING => Ok(Some((nm, ArgType::STRING(Some(vl))))),
            ArgTag::INTEGER => match crate::values::parse_i64(vl.as_slice()) {
                Some(n) => Ok(Some((nm, ArgType::INTEGER(Some(n))))),
                None => Err(
                    ParseError::InvalidIntegerLiteral {
                        line: line_no,
                        content: crate::bytes::copy_slice(line),
                    },
                ),
            },
            ArgTag::FLOAT => {
                if crate::values::check_float(vl.as_slice()) {
                    Ok(Some((nm, ArgType::FLOAT(Some(vl)))))
                } else {
                    Err(
                        ParseError::InvalidFloatLiteral {
                            line: line_no,
                            content: crate::bytes::copy_slice(line),
                        },
                    )
                }
            },
            ArgTag::BOOL => match crate::values::parse_bool(vl.as_slice()) {
                Some(b) => Ok(Some((nm, ArgType::BOOL(Some(b))))),
                None => Err(
                    ParseError::InvalidBooleanLiteral {
                        line: line_no,
                        content: crate::bytes::copy_slice(line),
                    },
                ),
            },
            ArgTag::VECTOR => Ok(None),
        },
    }
}

/// What processing one line does to the parse state: a directive replaces
/// the current type, an assignment stores its coerced entry, a comment or
/// blank line changes nothing, and anything else fails.
pub open spec fn spec_step(
    cur: Option<ArgTag>,
    store: Map<Seq<u8>, ValueModel>,
    line: Seq<u8>,
    ln: nat,
) -> Result<(Option<ArgTag>, Map<Seq<u8>, ValueModel>), ParseErrorModel> {
    match spec_classify(line) {
        None => Err(ParseErrorModel::UnrecognizedLine(ln, line)),
        Some(LineKind::TYPE) => match spec_resolve(line) {
            Some(t) => Ok((Some(t), store)),
            None => Err(ParseErrorModel::UnknownTypeDirective(ln, line)),
        },
        Some(LineKind::ARGUMENT) => match cur {
            None => Err(ParseErrorModel::NoTypeDeclared(ln)),
            Some(t) => match spec_coerce(t, line, ln) {
                Err(e) => Err(e),
                Ok(None) => Ok((cur, store)),
                Ok(Some((k, v))) => Ok((cur, store.insert(k, v))),
            },
        },
        Some(LineKind::COMMENT) => Ok((cur, store)),
        Some(LineKind::BLANK) => Ok((cur, store)),
    }
}

/// The parse state after processing lines `i` up to (excluding) `j`,
/// starting from the given current type and store, or the first error met.
pub open spec fn run_upto(
    lines: Seq<Seq<u8>>,
    i: int,
    j: int,
    cur: Option<ArgTag>,
    store: Map<Seq<u8>, ValueModel>,
) -> Result<(Option<ArgTag>, Map<Seq<u8>, ValueModel>), ParseErrorModel>
    decreases j - i,
{
    if i < 0 || i >= j || j > lines.len() {
        Ok((cur, store))
    } else {
        match spec_step(cur, store, lines[i], (i + 1) as nat) {
            Err(e) => Err(e),
            Ok((c2, s2)) => run_upto(lines, i + 1, j, c2, s2),
        }
    }
}

/// The mapping a whole file parses to, or the first error met. Parsing
/// starts with no type declared and an empty store.
pub open spec fn spec_parse(lines: Seq<Seq<u8>>) -> Result<
    Map<Seq<u8>, ValueModel>,
    ParseErrorModel,
> {
    match run_upto(lines, 0, lines.len() as int, None, Map::empty()) {
        Ok((c, m)) => Ok(m),
        Err(e) => Err(e),
    }
}

/// Processing a span of lines equals processing a first span and feeding
/// its state to the rest.
pub proof fn lemma_run_split(
    lines: Seq<Seq<u8>>,
    i: int,
    j: int,
    k: int,
    cur: Option<ArgTag>,
    store: Map<Seq<u8>, ValueModel>,
)
    requires
        0 <= i <= j <= k <= lines.len(),
    ensures
        run_upto(lines, i, k, cur, store) == match run_upto(lines, i, j, cur, store) {
            Err(e) => Err::<(Option<ArgTag>, Map<Seq<u8>, ValueModel>), ParseErrorModel>(e),
            Ok((c, s)) => run_upto(lines, j, k, c, s),
        },
    decreases j - i,
{
    if i < j {
        match spec_step(cur, store, lines[i], (i + 1) as nat) {
            Err(e) => {},
            Ok((c2, s2)) => {
                lemma_run_split(lines, i + 1, j, k, c2, s2);
            },
        }
    }
}

/// Processing a single line is one step of the state machine.
proof fn lemma_run_one(
    lines: Seq<Seq<u8>>,
    i: int,
    cur: Option<ArgTag>,
    store: Map<Seq<u8>, ValueModel>,
)
    requires
        0 <= i < lines.len(),
    ensures
        run_upto(lines, i, i + 1, cur, store) == match spec_step(
            cur,
            store,
            lines[i],
            (i + 1) as nat,
        ) {
            Err(e) => Err::<(Option<ArgTag>, Map<Seq<u8>, ValueModel>), ParseErrorModel>(e),
            Ok((c2, s2)) => Ok::<(Option<ArgTag>, Map<Seq<u8>, ValueModel>), ParseErrorModel>(
                (c2, s2),
            ),
        },
{
    match spec_step(cur, store, lines[i], (i + 1) as nat) {
        Err(e) => {},
        Ok((c2, s2)) => {
            assert(run_upto(lines, i + 1, i + 1, c2, s2) == Ok::<
                (Option<ArgTag>, Map<Seq<u8>, ValueModel>),
                ParseErrorModel,
            >((c2, s2)));
        },
    }
}

/// The mapping from names to typed values that a successful parse yields.
/// Entries are kept in arrival order; a later assignment to the same name
/// shadows every earlier one.
#[derive(Debug)]
pub struct ConfigParser {
    args: Vec<(Vec<u8>, ArgType)>,
}

/// The mapping an entry list denotes: entries apply left to right, so the
/// last assignment to a name wins. An entry with an absent payload denotes
/// nothing.
pub open spec fn store_map(s: Seq<(Vec<u8>, ArgType)>) -> Map<Seq<u8>, ValueModel>
    decreases s.len(),
{
    if s.len() == 0 {
        Map::empty()
    } else {
        let rest = store_map(s.drop_last());
        match s.last().1.model() {
            Some(v) => rest.insert(s.last().0@, v),
            None => rest,
        }
    }
}

/// The mapping `s` denotes holds `k` exactly at the last entry named `k`.
proof fn lemma_store_map_at(s: Seq<(Vec<u8>, ArgType)>, k: Seq<u8>, i: int)
    requires
        0 <= i < s.len(),
        s[i].0@ == k,
        s[i].1.model() is Some,
        forall|j: int| i < j < s.len() ==> s[j].0@ != k,
    ensures
        store_map(s).contains_key(k),
        Some(store_map(s)[k]) == s[i].1.model(),
    decreases s.len(),
{
    if i == s.len() - 1 {
    } else {
        lemma_store_map_at(s.drop_last(), k, i);
    }
}

/// A name no entry carries is absent from the mapping the list denotes.
proof fn lemma_store_map_absent(s: Seq<(Vec<u8>, ArgType)>, k: Seq<u8>)
    requires
        forall|j: int| 0 <= j < s.len() ==> s[j].0@ != k,
    ensures
        !store_map(s).contains_key(k),
    decreases s.len(),
{
    if s.len() > 0 {
        lemma_store_map_absent(s.drop_last(), k);
    }
}

impl ConfigParser {
    /// The mapping this parser holds.
    pub closed spec fn view(&self) -> Map<Seq<u8>, ValueModel> {
        store_map(self.args@)
    }

    /// Every stored entry carries a present payload.
    pub closed spec fn wf(&self) -> bool {
        forall|i: int| 0 <= i < self.args@.len() ==> (#[trigger] self.args@[i]).1.model() is Some
    }

    /// An empty parser, holding no mapping entries.
    pub fn new() -> (r: Self)
        ensures
            r@ == Map::<Seq<u8>, ValueModel>::empty(),
            r.wf(),
    {
        ConfigParser { args: Vec::new() }
    }

    /// The index of the last entry named `name`, if any.
    fn find_entry(&self, name: &[u8]) -> (r: Option<usize>)
        ensures
            match r {
                Some(i) => i < self.args@.len() && self.args@[i as int].0@ == name@ && forall|
                    j: int,
                |
                    i < j < self.args@.len() ==> self.args@[j].0@ != name@,
                None => forall|j: int| 0 <= j < self.args@.len() ==> self.args@[j].0@ != name@,
            },
    {
        let n = self.args.len();
        let mut i: usize = n;
        while i > 0
            invariant
                0 <= i <= n,
                n == self.args@.len(),
                forall|j: int| i <= j < n ==> self.args@[j].0@ != name@,
            decreases i,
        {
            if crate::bytes::bytes_eq(self.args[i - 1].0.as_slice(), name) {
                return Some(i - 1);
            }
            i = i - 1;
        }
        None
    }

    /// Parses the given lines into a fresh mapping, replacing whatever this
    /// parser held. The result is exactly what [`spec_parse`] assigns to the
    /// lines: the populated parser on success, the first error otherwise.
    pub fn parse(self, lines: &Vec<Vec<u8>>) -> (r: Result<ConfigParser, ParseError>)
        ensures
            match r {
                Ok(p) => p.wf() && spec_parse(lines.deep_view()) == Ok::<
                    Map<Seq<u8>, ValueModel>,
                    ParseErrorModel,
                >(p@),
                Err(e) => spec_parse(lines.deep_view()) == Err::<
                    Map<Seq<u8>, ValueModel>,
                    ParseErrorModel,
                >(e@),
            },
    {
        let ghost ls = lines.deep_view();
        proof {
            assert(ls.len() == lines@.len());
        }
        let mut args: Vec<(Vec<u8>, ArgType)> = Vec::new();
        let mut cur: Option<ArgTag> = None;
        let n = lines.len();
        let mut i: usize = 0;
        while i < n
            invariant
                0 <= i <= n,
                n == lines@.len(),
                ls == lines.deep_view(),
                ls.len() == n,
                forall|j: int| 0 <= j < args@.len() ==> (#[trigger] args@[j]).1.model() is Some,
                run_upto(ls, 0, i as int, None, Map::empty()) == Ok::<
                    (Option<ArgTag>, Map<Seq<u8>, ValueModel>),
                    ParseErrorModel,
                >((cur, store_map(args@))),
            decreases n - i,
        {
            proof {
                assert(ls[i as int] == lines@[i as int]@);
                lemma_run_split(ls, 0, i as int, i + 1, None, Map::empty());
                lemma_run_one(ls, i as int, cur, store_map(args@));
            }
            let line = &lines[i];
            let ln = i + 1;
            let ghost pre_cur = cur;
            let ghost pre_store = store_map(args@);
            match classify(line.as_slice(), ln) {
                Err(e) => {
                    proof {
                        lemma_run_split(ls, 0, i + 1, n as int, None, Map::empty());
                        assert(spec_step(pre_cur, pre_store, ls[i as int], (i + 1) as nat)
                            == Err::<
                            (Option<ArgTag>, Map<Seq<u8>, ValueModel>),
                            ParseErrorModel,
                        >(e@));
                    }
                    return Err(e);
                },
                Ok(LineKind::TYPE) => {
                    match resolve_type(line.as_slice(), ln) {
                        Err(e) => {
                            proof {
                                lemma_run_split(ls, 0, i + 1, n as int, None, Map::empty());
                            }
                            return Err(e);
                        },
                        Ok(marker) => {
                            cur = Some(marker.tag());
                        },
                    }
                },
                Ok(LineKind::ARGUMENT) => {
                    match cur {
                        None => {
                            let e = ParseError::NoTypeDeclared { line: ln };
                            proof {
                                lemma_run_split(ls, 0, i + 1, n as int, None, Map::empty());
                            }
                            return Err(e);
                        },
                        Some(t) => {
                            match coerce(t, line.as_slice(), ln) {
                                Err(e) => {
                                    proof {
                                        lemma_run_split(ls, 0, i + 1, n as int, None, Map::empty());
                                    }
                                    return Err(e);
                                },
                                Ok(None) => {},
                                Ok(Some(entry)) => {
                                    proof {
                                        assert(args@.push(entry).drop_last() =~= args@);
                                    }
                                    args.push(entry);
                                },
                            }
                        },
                    }
                },
                Ok(LineKind::COMMENT) => {},
                Ok(LineKind::BLANK) => {},
            }
            i = i + 1;
        }
        proof {
            assert(run_upto(ls, 0, ls.len() as int, None, Map::empty()) == Ok::<
                (Option<ArgTag>, Map<Seq<u8>, ValueModel>),
                ParseErrorModel,
            >((cur, store_map(args@))));
        }
        Ok(ConfigParser { args })
    }

    /// Whether the typed accessors' result is forced for a requested tag:
    /// the payload on a match, the exact error otherwise.
    pub open spec fn accessor_post(
        &self,
        name: Seq<u8>,
        want: ArgTag,
        got: Result<ValueModel, AccessError>,
    ) -> bool {
        match got {
            Ok(v) => self@.contains_key(name) && self@[name] == v && v.tag() == want,
            Err(e) => match e@ {
                AccessErrorModel::MissingKey(n) => n == name && !self@.contains_key(name),
                AccessErrorModel::TypeMismatch(n, expected, actual) => n == name && expected
                    == want && self@.contains_key(name) && actual == self@[name].tag() && actual
                    != want,
            },
        }
    }

    /// Looks up a string-typed value and returns a copy of its payload.
    pub fn get_string(&self, name: &[u8]) -> (r: Result<Vec<u8>, AccessError>)
        requires
            self.wf(),
        ensures
            match r {
                Ok(v) => self.accessor_post(name@, ArgTag::STRING, Ok(ValueModel::VStr(v@))),
                Err(e) => self.accessor_post(name@, ArgTag::STRING, Err(e)),
            },
    {
        match self.get_arg(name) {
            Err(e) => Err(e),
            Ok(v) => match v {
                ArgType::STRING(Some(s)) => Ok(s),
                other => Err(
                    AccessError::TypeMismatch {
                        name: crate::bytes::copy_slice(name),
                        expected: ArgTag::STRING,
                        actual: other.tag(),
                    },
                ),
            },
        }
    }

    /// Looks up an integer-typed value and returns its payload.
    pub fn get_integer(&self, name: &[u8]) -> (r: Result<i64, AccessError>)
        requires
            self.wf(),
        ensures
            match r {
                Ok(v) => self.accessor_post(
                    name@,
                    ArgTag::INTEGER,
                    Ok(ValueModel::VInt(v as int)),
                ),
                Err(e) => self.accessor_post(name@, ArgTag::INTEGER, Err(e)),
            },
    {
        match self.get_arg(name) {
            Err(e) => Err(e),
            Ok(v) => match v {
                ArgType::INTEGER(Some(n)) => Ok(n),
                other => Err(
                    AccessError::TypeMismatch {
                        name: crate::bytes::copy_slice(name),
                        expected: ArgTag::INTEGER,
                        actual: other.tag(),
                    },
                ),
            },
        }
    }

    /// Looks up a float-typed value and returns a copy of its validated
    /// literal text; its numeric reading is the caller's.
    pub fn get_float(&self, name: &[u8]) -> (r: Result<Vec<u8>, AccessError>)
        requires
            self.wf(),
        ensures
            match r {
                Ok(v) => self.accessor_post(name@, ArgTag::FLOAT, Ok(ValueModel::VFloat(v@))),
                Err(e) => self.accessor_post(name@, ArgTag::FLOAT, Err(e)),
            },
    {
        match self.get_arg(name) {
            Err(e) => Err(e),
            Ok(v) => match v {
                ArgType::FLOAT(Some(s)) => Ok(s),
                other => Err(
                    AccessError::TypeMismatch {
                        name: crate::bytes::copy_slice(name),
                        expected: ArgTag::FLOAT,
                        actual: other.tag(),
                    },
                ),
            },
        }
    }

    /// Looks up a boolean-typed value and returns its payload.
    pub fn get_bool(&self, name: &[u8]) -> (r: Result<bool, AccessError>)
        requires
            self.wf(),
        ensures
            match r {
                Ok(v) => self.accessor_post(name@, ArgTag::BOOL, Ok(ValueModel::VBool(v))),
                Err(e) => self.accessor_post(name@, ArgTag::BOOL, Err(e)),
            },
    {
        match self.get_arg(name) {
            Err(e) => Err(e),
            Ok(v) => match v {
                ArgType::BOOL(Some(b)) => Ok(b),
                other => Err(
                    AccessError::TypeMismatch {
                        name: crate::bytes::copy_slice(name),
                        expected: ArgTag::BOOL,
                        actual: other.tag(),
                    },
                ),
            },
        }
    }

    /// Looks up a vector-typed value and returns a copy of its payload.
    pub fn get_vector(&self, name: &[u8]) -> (r: Result<Vec<i64>, AccessError>)
        requires
            self.wf(),
        ensures
            match r {
                Ok(v) => self.accessor_post(
                    name@,
                    ArgTag::VECTOR,
                    Ok(ValueModel::VVec(v@.map_values(|x: i64| x as int))),
                ),
                Err(e) => self.accessor_post(name@, ArgTag::VECTOR, Err(e)),
            },
    {
        match self.get_arg(name) {
            Err(e) => Err(e),
            Ok(v) => match v {
                ArgType::VECTOR(Some(xs)) => Ok(xs),
                other => Err(
                    AccessError::TypeMismatch {
                        name: crate::bytes::copy_slice(name),
                        expected: ArgTag::VECTOR,
                        actual: other.tag(),
                    },
                ),
            },
        }
    }

    /// Looks up a name and returns a copy of its stored typed value, or
    /// reports the name as missing.
    pub fn get_arg(&self, name: &[u8]) -> (r: Result<ArgType, AccessError>)
        requires
            self.wf(),
        ensures
            match r {
                Ok(v) => self@.contains_key(name@) && v.model() == Some(self@[name@]),
                Err(e) => e@ == AccessErrorModel::MissingKey(name@) && !self@.contains_key(name@),
            },
    {
        match self.find_entry(name) {
            Some(i) => {
                proof {
                    lemma_store_map_at(self.args@, name@, i as int);
                }
                Ok(self.args[i].1.duplicate())
            },
            None => {
                proof {
                    lemma_store_map_absent(self.args@, name@);
                }
                Err(AccessError::MissingKey { name: crate::bytes::copy_slice(name) })
            },
        }
    }
}

} // verus!
