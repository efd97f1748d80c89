//! Laws of the parsing pipeline, each proved over the specification
//! functions that the executable functions' contracts are stated in:
//! which assignment a stored value comes from, that its tag follows the
//! directive in effect, that coercion agrees with each type's own literal
//! parser, that lookups are idempotent, and the boundary failures.

use vstd::prelude::*;

use crate::errors::AccessError;
use crate::errors::ParseErrorModel;
use crate::parser::ConfigParser;
use crate::parser::LineKind;
use crate::parser::run_upto;
use crate::parser::spec_classify;
use crate::parser::spec_coerce;
use crate::parser::spec_parse;
use crate::parser::spec_resolve;
use crate::parser::spec_split;
use crate::parser::spec_step;
use crate::values::ArgTag;
use crate::values::ArgType;
use crate::values::ValueModel;
use crate::values::int_literal_val;
use crate::values::is_false_lit;
use crate::values::is_float_literal;
use crate::values::is_i64_literal;
use crate::values::is_true_lit;

verus! {

/// The type in effect when line `i` is processed: what the most recent
/// resolving type directive before it declared, if any.
pub open spec fn tag_in_effect(lines: Seq<Seq<u8>>, i: int) -> Option<ArgTag>
    decreases i,
{
    if i <= 0 {
        None
    } else {
        let prev = lines[i - 1];
        if spec_classify(prev) == Some(LineKind::TYPE) && spec_resolve(prev) is Some {
            spec_resolve(prev)
        } else {
            tag_in_effect(lines, i - 1)
        }
    }
}

/// The entry that coercing line `i` under the type in effect yields, if
/// the coercion yields one.
pub open spec fn coerce_entry(lines: Seq<Seq<u8>>, i: int) -> Option<(Seq<u8>, ValueModel)> {
    match tag_in_effect(lines, i) {
        None => None,
        Some(t) => match spec_coerce(t, lines[i], (i + 1) as nat) {
            Ok(e) => e,
            Err(_) => None,
        },
    }
}

/// Line `i` is an assignment that stores an entry named `k`.
pub open spec fn stores_to(lines: Seq<Seq<u8>>, i: int, k: Seq<u8>) -> bool {
    &&& 0 <= i < lines.len()
    &&& spec_classify(lines[i]) == Some(LineKind::ARGUMENT)
    &&& match coerce_entry(lines, i) {
        Some(p) => p.0 == k,
        None => false,
    }
}

/// A successful step carries the type in effect forward: a resolving
/// directive replaces it, every other line keeps it.
proof fn lemma_tag_in_effect_step(
    lines: Seq<Seq<u8>>,
    i: int,
    cur: Option<ArgTag>,
    store: Map<Seq<u8>, ValueModel>,
    c2: Option<ArgTag>,
    s2: Map<Seq<u8>, ValueModel>,
)
    requires
        0 <= i < lines.len(),
        cur == tag_in_effect(lines, i),
        spec_step(cur, store, lines[i], (i + 1) as nat) == Ok::<
            (Option<ArgTag>, Map<Seq<u8>, ValueModel>),
            ParseErrorModel,
        >((c2, s2)),
    ensures
        c2 == tag_in_effect(lines, i + 1),
{
    assert(lines[(i + 1) - 1] == lines[i]);
}

/// The induction behind the storage laws: a key of the final mapping was
/// either stored by a last assignment in the remaining lines, or stood
/// untouched in the store handed in.
proof fn lemma_origin_from(
    lines: Seq<Seq<u8>>,
    i0: int,
    cur: Option<ArgTag>,
    store: Map<Seq<u8>, ValueModel>,
    fin: (Option<ArgTag>, Map<Seq<u8>, ValueModel>),
    k: Seq<u8>,
)
    requires
        0 <= i0 <= lines.len(),
        cur == tag_in_effect(lines, i0),
        run_upto(lines, i0, lines.len() as int, cur, store) == Ok::<
            (Option<ArgTag>, Map<Seq<u8>, ValueModel>),
            ParseErrorModel,
        >(fin),
        fin.1.contains_key(k),
    ensures
        (exists|i: int|
            #![auto]
            i0 <= i < lines.len() && stores_to(lines, i, k) && (forall|j: int|
                i < j < lines.len() ==> !stores_to(lines, j, k)) && coerce_entry(lines, i)
                == Some((k, fin.1[k]))) || (store.contains_key(k) && store[k] == fin.1[k]
            && forall|j: int| i0 <= j < lines.len() ==> !stores_to(lines, j, k)),
    decreases lines.len() - i0,
{
    if i0 == lines.len() {
        assert(fin.1 == store);
    } else {
        let step = spec_step(cur, store, lines[i0], (i0 + 1) as nat);
        match step {
            Err(_) => {
                assert(false);
            },
            Ok((c2, s2)) => {
                lemma_tag_in_effect_step(lines, i0, cur, store, c2, s2);
                lemma_origin_from(lines, i0 + 1, c2, s2, fin, k);
                match spec_classify(lines[i0]) {
                    Some(LineKind::ARGUMENT) => {
                        let t = cur->Some_0;
                        match spec_coerce(t, lines[i0], (i0 + 1) as nat) {
                            Ok(Some((n, v))) => {
                                assert(coerce_entry(lines, i0) == Some((n, v)));
                                if n == k {
                                    assert(stores_to(lines, i0, k));
                                    if store.contains_key(k) && store[k] == fin.1[k] && forall|
                                        j: int,
                                    | i0 < j < lines.len() ==> !stores_to(lines, j, k) {
                                    }
                                } else {
                                    assert(!stores_to(lines, i0, k));
                                }
                            },
                            Ok(None) => {
                                assert(coerce_entry(lines, i0) is None);
                                assert(!stores_to(lines, i0, k));
                            },
                            Err(_) => {
                                assert(false);
                            },
                        }
                    },
                    _ => {
                        assert(!stores_to(lines, i0, k));
                    },
                }
            },
        }
    }
}

/// Last write wins: every name of a parsed mapping was stored by the last
/// assignment to it, under the type then in effect; no later line assigns
/// to it, and its value is exactly that assignment's coerced value.
pub proof fn lemma_last_assignment_wins(lines: Seq<Seq<u8>>, m: Map<Seq<u8>, ValueModel>, k: Seq<u8>)
    requires
        spec_parse(lines) == Ok::<Map<Seq<u8>, ValueModel>, ParseErrorModel>(m),
        m.contains_key(k),
    ensures
        exists|i: int|
            #![auto]
            stores_to(lines, i, k) && (forall|j: int|
                i < j < lines.len() ==> !stores_to(lines, j, k)) && coerce_entry(lines, i)
                == Some((k, m[k])),
{
    let r = run_upto(lines, 0, lines.len() as int, None, Map::empty());
    match r {
        Ok(st) => {
            assert(st.1 == m);
            lemma_origin_from(lines, 0, None, Map::empty(), st, k);
        },
        Err(_) => {
            assert(false);
        },
    }
}

/// A coerced entry's value carries the tag it was coerced under.
proof fn lemma_coerce_tag(t: ArgTag, line: Seq<u8>, ln: nat)
    ensures
        match spec_coerce(t, line, ln) {
            Ok(Some(p)) => p.1.tag() == t,
            _ => true,
        },
{
}

/// Every name of a parsed mapping holds a value whose tag is the one the
/// most recent preceding type directive declared for its last assignment.
pub proof fn lemma_stored_tag_matches_directive(
    lines: Seq<Seq<u8>>,
    m: Map<Seq<u8>, ValueModel>,
    k: Seq<u8>,
)
    requires
        spec_parse(lines) == Ok::<Map<Seq<u8>, ValueModel>, ParseErrorModel>(m),
        m.contains_key(k),
    ensures
        exists|i: int|
            #![auto]
            stores_to(lines, i, k) && tag_in_effect(lines, i) == Some(m[k].tag()),
{
    lemma_last_assignment_wins(lines, m, k);
    let i = choose|i: int|
        #![auto]
        stores_to(lines, i, k) && (forall|j: int|
            i < j < lines.len() ==> !stores_to(lines, j, k)) && coerce_entry(lines, i) == Some(
            (k, m[k]),
        );
    let t = tag_in_effect(lines, i)->Some_0;
    lemma_coerce_tag(t, lines[i], (i + 1) as nat);
    assert(stores_to(lines, i, k) && tag_in_effect(lines, i) == Some(m[k].tag()));
}

/// A filled value's tag is the tag of its model.
proof fn lemma_model_tag(v: ArgType)
    ensures
        match v.model() {
            Some(m) => m.tag() == v.spec_tag(),
            None => true,
        },
{
}

/// Parsing then accessing a declared name returns a value whose tag
/// matches the most recent type directive preceding its last assignment.
pub proof fn lemma_parse_then_get_tag(
    lines: Seq<Seq<u8>>,
    p: &ConfigParser,
    name: &[u8],
    r: Result<ArgType, AccessError>,
)
    requires
        p.wf(),
        spec_parse(lines) == Ok::<Map<Seq<u8>, ValueModel>, ParseErrorModel>(p@),
        p@.contains_key(name@),
        call_ensures(ConfigParser::get_arg, (p, name), r),
    ensures
        r matches Ok(v) && exists|i: int|
            #![auto]
            stores_to(lines, i, name@) && tag_in_effect(lines, i) == Some(v.spec_tag()),
{
    lemma_stored_tag_matches_directive(lines, p@, name@);
    match r {
        Ok(v) => {
            lemma_model_tag(v);
            assert(v.spec_tag() == p@[name@].tag());
        },
        Err(_) => {
            assert(false);
        },
    }
}

/// Coercion agrees with each declared type's own literal parser: the
/// stored value is exactly what parsing the raw right-hand side under that
/// type yields; a valid raw value is never altered on the way in.
pub proof fn lemma_coerce_parses_raw(t: ArgTag, line: Seq<u8>, ln: nat, k: Seq<u8>, v: ValueModel)
    requires
        spec_coerce(t, line, ln) == Ok::<Option<(Seq<u8>, ValueModel)>, ParseErrorModel>(
            Some((k, v)),
        ),
    ensures
        spec_split(line) matches Some(p) && p.0 == k && match t {
            ArgTag::STRING => v == ValueModel::VStr(p.1),
            ArgTag::INTEGER => is_i64_literal(p.1) && v == ValueModel::VInt(int_literal_val(p.1)),
            ArgTag::FLOAT => is_float_literal(p.1) && v == ValueModel::VFloat(p.1),
            ArgTag::BOOL => (is_true_lit(p.1) || is_false_lit(p.1)) && v == ValueModel::VBool(
                is_true_lit(p.1),
            ),
            ArgTag::VECTOR => false,
        },
{
}

/// Reading a name twice yields equal results, and a lookup never changes
/// the mapping: the accessor takes a shared borrow, and its contract pins
/// the result as a function of the mapping and the name alone.
pub proof fn lemma_get_arg_idempotent(
    p: &ConfigParser,
    name: &[u8],
    r1: Result<ArgType, AccessError>,
    r2: Result<ArgType, AccessError>,
)
    requires
        p.wf(),
        call_ensures(ConfigParser::get_arg, (p, name), r1),
        call_ensures(ConfigParser::get_arg, (p, name), r2),
    ensures
        match (r1, r2) {
            (Ok(a), Ok(b)) => a.model() == b.model(),
            (Err(a), Err(b)) => a@ == b@,
            _ => false,
        },
{
}

/// Comment and blank lines change no state.
proof fn lemma_run_noops(
    lines: Seq<Seq<u8>>,
    i0: int,
    i: int,
    cur: Option<ArgTag>,
    store: Map<Seq<u8>, ValueModel>,
)
    requires
        0 <= i0 <= i <= lines.len(),
        forall|j: int|
            i0 <= j < i ==> (spec_classify(lines[j]) == Some(LineKind::COMMENT) || spec_classify(
                lines[j],
            ) == Some(LineKind::BLANK)),
    ensures
        run_upto(lines, i0, i, cur, store) == Ok::<
            (Option<ArgTag>, Map<Seq<u8>, ValueModel>),
            ParseErrorModel,
        >((cur, store)),
    decreases i - i0,
{
    if i0 < i {
        lemma_run_noops(lines, i0 + 1, i, cur, store);
    }
}

/// An assignment line before any type directive fails the whole parse with
/// the no-type error, reporting that line's 1-based number.
pub proof fn lemma_first_assignment_needs_directive(lines: Seq<Seq<u8>>, i: int)
    requires
        0 <= i < lines.len(),
        spec_classify(lines[i]) == Some(LineKind::ARGUMENT),
        forall|j: int|
            0 <= j < i ==> (spec_classify(lines[j]) == Some(LineKind::COMMENT) || spec_classify(
                lines[j],
            ) == Some(LineKind::BLANK)),
    ensures
        spec_parse(lines) == Err::<Map<Seq<u8>, ValueModel>, ParseErrorModel>(
            ParseErrorModel::NoTypeDeclared((i + 1) as nat),
        ),
{
    lemma_run_noops(lines, 0, i, None, Map::empty());
    crate::parser::lemma_run_split(lines, 0, i, lines.len() as int, None, Map::empty());
    assert(spec_step(None, Map::empty(), lines[i], (i + 1) as nat) == Err::<
        (Option<ArgTag>, Map<Seq<u8>, ValueModel>),
        ParseErrorModel,
    >(ParseErrorModel::NoTypeDeclared((i + 1) as nat)));
}

/// A type directive whose tag is not in the fixed table fails the whole
/// parse with the unknown-directive error, reporting the line and its
/// content, provided parsing reaches it.
pub proof fn lemma_unknown_directive_fails(lines: Seq<Seq<u8>>, i: int)
    requires
        0 <= i < lines.len(),
        spec_classify(lines[i]) == Some(LineKind::TYPE),
        spec_resolve(lines[i]) is None,
        run_upto(lines, 0, i, None, Map::empty()) matches Ok(_),
    ensures
        spec_parse(lines) == Err::<Map<Seq<u8>, ValueModel>, ParseErrorModel>(
            ParseErrorModel::UnknownTypeDirective((i + 1) as nat, lines[i]),
        ),
{
    crate::parser::lemma_run_split(lines, 0, i, lines.len() as int, None, Map::empty());
    match run_upto(lines, 0, i, None, Map::empty()) {
        Ok(st) => {
            assert(spec_step(st.0, st.1, lines[i], (i + 1) as nat) == Err::<
                (Option<ArgTag>, Map<Seq<u8>, ValueModel>),
                ParseErrorModel,
            >(ParseErrorModel::UnknownTypeDirective((i + 1) as nat, lines[i])));
        },
        Err(_) => {
            assert(false);
        },
    }
}

} // verus!
