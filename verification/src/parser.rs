//! The parsing state machine.
//!
//! `spec_parse` is the specification: the input is ASCII lower-cased, split
//! into lines, and folded through `spec_step`, which classifies each line
//! (section marker, class close, class open, member, relation) and updates
//! the state — the table of finished classes, the class currently being
//! built, and whether a class block is open.  `parse_to_ast` is proved to
//! return exactly what `spec_parse` says, for every input.

use vstd::prelude::*;
use vstd::string::StringExecFns;

use crate::cardinality::resolve_token;
use crate::cardinality::spec_is_many;
use crate::cardinality::spec_resolve;
use crate::classify::class_names;
use crate::classify::class_names_from;
use crate::classify::member_from;
use crate::classify::member_match;
use crate::classify::rel_tokens;
use crate::classify::rel_tokens_from;
use crate::classify::resolve_type;
use crate::classify::resolve_type_token;
use crate::model::AttributeModel;
use crate::model::ClassDef;
use crate::model::ClassModel;
use crate::model::DataTypeModel;
use crate::model::FunctionModel;
use crate::model::empty_class_model;
use crate::table::ClassTable;
use crate::table::has_name;
use crate::table::table_at;
use crate::table::table_inject;
use crate::table::table_put;
use crate::table::table_remove;
use crate::text::chars_to_string;
use crate::text::contains_char;
use crate::text::contains_sub;
use crate::text::lower_chars;
use crate::text::lower_seq;
use crate::text::seq_contains_char;
use crate::text::seq_contains_sub;
use crate::text::spec_split_lines;
use crate::text::split_lines;
use crate::text::str_chars;

verus! {

/// The state of the parse between lines.
#[verifier::ext_equal]
pub struct StateModel {
    /// The finished classes, keyed by their upper-cased name.
    pub table: Seq<ClassModel>,
    /// The class currently accumulating members.
    pub current: ClassModel,
    /// Whether a class block is open, so member lines apply.
    pub in_class: bool,
}

/// Model of a parse failure.
#[verifier::ext_equal]
pub enum ErrorModel {
    /// A relation line carried this unrecognized cardinality token.
    UnknownCardinality(Seq<char>),
    /// This relation line had fewer than five tokens.
    MalformedRelation(Seq<char>),
}

/// A parse failure: either an unrecognized cardinality token, or a
/// relation line with too few tokens (the offending token or line is
/// carried).
#[derive(Debug, Clone, PartialEq, Eq)]
pub enum ParseError {
    UnknownCardinality(String),
    MalformedRelation(String),
}

impl View for ParseError {
    type V = ErrorModel;

    open spec fn view(&self) -> ErrorModel {
        match self {
            ParseError::UnknownCardinality(t) => ErrorModel::UnknownCardinality(t@),
            ParseError::MalformedRelation(l) => ErrorModel::MalformedRelation(l@),
        }
    }
}

impl ParseError {
    /// A human-readable description of the failure, naming the offending
    /// token or line.
    pub fn message(&self) -> (r: String)
        ensures
            match self {
                ParseError::UnknownCardinality(t) => r@ == "entity relation error, no such relation "@
                    + t@,
                ParseError::MalformedRelation(l) => r@ == "malformed relation line: "@ + l@,
            },
    {
        match self {
            ParseError::UnknownCardinality(t) => String::from_str(
                "entity relation error, no such relation ",
            ).concat(t.as_str()),
            ParseError::MalformedRelation(l) => String::from_str(
                "malformed relation line: ",
            ).concat(l.as_str()),
        }
    }
}

/// The state before any line: empty table, empty unnamed accumulator,
/// no open class block.
pub open spec fn init_state() -> StateModel {
    StateModel {
        table: Seq::empty(),
        current: empty_class_model(Seq::empty()),
        in_class: false,
    }
}

/// Applies the class names found on a class-open line, in order: a name
/// already in the table is pulled back out of it to become the current
/// accumulator (re-opening merges into the existing definition); a new
/// name renames the accumulator, keeping members gathered so far.
pub open spec fn apply_opens(st: StateModel, names: Seq<Seq<char>>, i: int) -> StateModel
    decreases names.len() - i,
    when 0 <= i <= names.len()
{
    if i >= names.len() {
        st
    } else {
        let nm = names[i];
        let st2 = if has_name(st.table, nm) {
            StateModel {
                table: table_remove(st.table, nm),
                current: table_at(st.table, nm),
                in_class: st.in_class,
            }
        } else {
            StateModel {
                table: st.table,
                current: ClassModel {
                    name: nm,
                    attributes: st.current.attributes,
                    functions: st.current.functions,
                },
                in_class: st.in_class,
            }
        };
        apply_opens(st2, names, i + 1)
    }
}

/// Applies a member line to the open class: the first "word space word"
/// shape yields a type token and a name; the member is a function when
/// the line holds both `(` and `)`, else an attribute.  A line without
/// the member shape changes nothing.
pub open spec fn apply_member(st: StateModel, line: Seq<char>) -> StateModel {
    match member_from(line, 0) {
        None => st,
        Some(tn) => {
            let dt = resolve_type_token(tn.0);
            if seq_contains_char(line, '(') && seq_contains_char(line, ')') {
                StateModel {
                    table: st.table,
                    current: ClassModel {
                        name: st.current.name,
                        attributes: st.current.attributes,
                        functions: st.current.functions.push(
                            FunctionModel { return_type: dt, name: tn.1, params: Seq::empty() },
                        ),
                    },
                    in_class: st.in_class,
                }
            } else {
                StateModel {
                    table: st.table,
                    current: ClassModel {
                        name: st.current.name,
                        attributes: st.current.attributes.push(
                            AttributeModel { data_type: dt, name: tn.1 },
                        ),
                        functions: st.current.functions,
                    },
                    in_class: st.in_class,
                }
            }
        },
    }
}

/// The table with a class of the given name, created empty when absent.
pub open spec fn ensure_present(t: Seq<ClassModel>, name: Seq<char>) -> Seq<ClassModel> {
    if has_name(t, name) {
        t
    } else {
        t.push(empty_class_model(name))
    }
}

/// The name of a synthesized relation attribute.
pub open spec fn fk_name(n: Seq<char>) -> Seq<char> {
    n + "_fk"@
}

/// Applies a relation line: token 0 and 4 are the class names, tokens 1
/// and 3 the cardinalities.  Unresolvable cardinalities and lines with
/// fewer than five tokens fail.  Both classes are created when absent;
/// then exactly one synthesized attribute is injected — a foreign key
/// into the many side, or a many-to-many field into the left class —
/// and none when neither side is many.
pub open spec fn apply_relation(st: StateModel, line: Seq<char>) -> Result<
    StateModel,
    ErrorModel,
> {
    let tks = rel_tokens_from(line, 0);
    if tks.len() < 5 {
        Err(ErrorModel::MalformedRelation(line))
    } else {
        let lname = tks[0];
        let rname = tks[4];
        match spec_resolve(tks[1]) {
            None => Err(ErrorModel::UnknownCardinality(tks[1])),
            Some(lc) => match spec_resolve(tks[3]) {
                None => Err(ErrorModel::UnknownCardinality(tks[3])),
                Some(rc) => {
                    let t = ensure_present(ensure_present(st.table, lname), rname);
                    let lm = spec_is_many(lc);
                    let rm = spec_is_many(rc);
                    let t2 = if !lm && rm {
                        table_inject(
                            t,
                            rname,
                            AttributeModel {
                                data_type: DataTypeModel::FOREIGN_KEY(lname),
                                name: fk_name(lname),
                            },
                        )
                    } else if lm && !rm {
                        table_inject(
                            t,
                            lname,
                            AttributeModel {
                                data_type: DataTypeModel::FOREIGN_KEY(rname),
                                name: fk_name(rname),
                            },
                        )
                    } else if lm && rm {
                        table_inject(
                            t,
                            lname,
                            AttributeModel {
                                data_type: DataTypeModel::MANY_TO_MANY(rname),
                                name: fk_name(rname),
                            },
                        )
                    } else {
                        t
                    };
                    Ok(StateModel { table: t2, current: st.current, in_class: st.in_class })
                },
            },
        }
    }
}

/// One line of the parse.  A section-marker line is skipped outright.
/// Otherwise, in priority order: a line with `}` closes the open class,
/// flushing it into the table; a line with `class` opens classes; any
/// other line while a class is open is a member line.  Independently, a
/// line with `--` is then also applied as a relation.
pub open spec fn spec_step(st: StateModel, line: Seq<char>) -> Result<StateModel, ErrorModel> {
    if seq_contains_sub(line, "classdiagram"@) {
        Ok(st)
    } else {
        let st1 = if seq_contains_char(line, '}') {
            StateModel {
                table: table_put(st.table, st.current),
                current: empty_class_model(Seq::empty()),
                in_class: false,
            }
        } else if seq_contains_sub(line, "class"@) {
            let st2 = apply_opens(st, class_names_from(line, 0), 0);
            StateModel { table: st2.table, current: st2.current, in_class: true }
        } else if st.in_class {
            apply_member(st, line)
        } else {
            st
        };
        if seq_contains_sub(line, "--"@) {
            apply_relation(st1, line)
        } else {
            Ok(st1)
        }
    }
}

/// The fold of `spec_step` over the lines from `i` on.
pub open spec fn run_lines(st: StateModel, lines: Seq<Seq<char>>, i: int) -> Result<
    StateModel,
    ErrorModel,
> decreases lines.len() - i,
    when 0 <= i <= lines.len()
{
    if i >= lines.len() {
        Ok(st)
    } else {
        match spec_step(st, lines[i]) {
            Err(e) => Err(e),
            Ok(st2) => run_lines(st2, lines, i + 1),
        }
    }
}

/// The whole parse: lower-case the input, split it on line feeds, fold
/// the state machine over the lines, and return the final table.  A
/// still-open class block at the end of input is dropped.
pub open spec fn spec_parse(input: Seq<char>) -> Result<Seq<ClassModel>, ErrorModel> {
    match run_lines(init_state(), spec_split_lines(lower_seq(input)), 0) {
        Ok(st) => Ok(st.table),
        Err(e) => Err(e),
    }
}

/// The executable state between lines.
struct ParserState {
    table: ClassTable,
    current: ClassDef,
    in_class: bool,
}

impl View for ParserState {
    type V = StateModel;

    closed spec fn view(&self) -> StateModel {
        StateModel { table: self.table@, current: self.current@, in_class: self.in_class }
    }
}

/// One line of the executable parse; returns the next state or the
/// failure that `spec_step` assigns to this line.
fn step_line(st: ParserState, line: &Vec<char>) -> (r: Result<ParserState, ParseError>)
    ensures
        match r {
            Ok(st2) => spec_step(st@, line@) == Ok::<StateModel, ErrorModel>(st2@),
            Err(e) => spec_step(st@, line@) == Err::<StateModel, ErrorModel>(e@),
        },
{
    let ghost st0 = st@;
    if contains_sub(line, &str_chars("classdiagram")) {
        return Ok(st);
    }
    let mut st = st;
    if contains_char(line, '}') {
        let flushed = st.current;
        st.table.put(flushed);
        st.current = ClassDef::new(String::new());
        st.in_class = false;
        proof {
            assert(st@ =~~= (StateModel {
                table: table_put(st0.table, st0.current),
                current: empty_class_model(Seq::empty()),
                in_class: false,
            }));
        }
    } else if contains_sub(line, &str_chars("class")) {
        let names = class_names(line);
        let ghost ns = names.deep_view();
        let n = names.len();
        let mut i: usize = 0;
        while i < n
            invariant
                i <= n,
                n == names@.len(),
                ns == names.deep_view(),
                apply_opens(st0, ns, 0) == apply_opens(st@, ns, i as int),
            decreases n - i,
        {
            proof {
                assert(names@[i as int].deep_view() == ns[i as int]);
            }
            let ghost pre = st@;
            match st.table.remove_named(&names[i]) {
                Some(c) => {
                    st.current = c;
                    proof {
                        assert(st@ =~~= (StateModel {
                            table: table_remove(pre.table, ns[i as int]),
                            current: table_at(pre.table, ns[i as int]),
                            in_class: pre.in_class,
                        }));
                    }
                },
                None => {
                    st.current.name = names[i].clone();
                    proof {
                        assert(st@ =~~= (StateModel {
                            table: pre.table,
                            current: ClassModel {
                                name: ns[i as int],
                                attributes: pre.current.attributes,
                                functions: pre.current.functions,
                            },
                            in_class: pre.in_class,
                        }));
                    }
                },
            }
            proof {
                assert(apply_opens(pre, ns, i as int) == apply_opens(st@, ns, i as int + 1));
            }
            i += 1;
        }
        st.in_class = true;
        proof {
            assert(apply_opens(st0, ns, ns.len() as int) == apply_opens(st0, ns, ns.len() as int));
            assert(st@ =~~= (StateModel {
                table: apply_opens(st0, ns, 0).table,
                current: apply_opens(st0, ns, 0).current,
                in_class: true,
            }));
        }
    } else if st.in_class {
        match member_match(line) {
            Some((w1, w2)) => {
                let dt = resolve_type(&w1);
                let nm = chars_to_string(&w2);
                if contains_char(line, '(') && contains_char(line, ')') {
                    let ghost pre = st@;
                    let f = crate::model::FunctionDef::new(dt, nm, Vec::new());
                    proof {
                        assert(f@.params =~= Seq::<AttributeModel>::empty());
                    }
                    st.current.functions.push(f);
                    proof {
                        assert(st.current.functions.deep_view() =~= pre.current.functions.push(
                            f@,
                        ));
                        assert(st@ =~~= apply_member(pre, line@));
                    }
                } else {
                    let ghost pre = st@;
                    let a = crate::model::AttributeDef::new(dt, nm);
                    st.current.attributes.push(a);
                    proof {
                        assert(st.current.attributes.deep_view() =~= pre.current.attributes.push(
                            a@,
                        ));
                        assert(st@ =~~= apply_member(pre, line@));
                    }
                }
            },
            None => {
                proof {
                    assert(st@ == apply_member(st@, line@));
                }
            },
        }
    }
    let ghost st1 = st@;
    if contains_sub(line, &str_chars("--")) {
        let tks = rel_tokens(line);
        let ghost tv = rel_tokens_from(line@, 0);
        if tks.len() < 5 {
            return Err(ParseError::MalformedRelation(chars_to_string(line)));
        }
        proof {
            assert(tks@[0].deep_view() == tv[0]);
            assert(tks@[1].deep_view() == tv[1]);
            assert(tks@[3].deep_view() == tv[3]);
            assert(tks@[4].deep_view() == tv[4]);
            assert(tks@[0]@ =~= tks@[0].deep_view());
            assert(tks@[1]@ =~= tks@[1].deep_view());
            assert(tks@[3]@ =~= tks@[3].deep_view());
            assert(tks@[4]@ =~= tks@[4].deep_view());
        }
        let lname = chars_to_string(&tks[0]);
        let rname = chars_to_string(&tks[4]);
        let lc = match resolve_token(&tks[1]) {
            Some(c) => c,
            None => {
                return Err(ParseError::UnknownCardinality(chars_to_string(&tks[1])));
            },
        };
        let rc = match resolve_token(&tks[3]) {
            Some(c) => c,
            None => {
                return Err(ParseError::UnknownCardinality(chars_to_string(&tks[3])));
            },
        };
        if !st.table.contains_name(&lname) {
            st.table.put(ClassDef::new(lname.clone()));
        }
        proof {
            assert(st.table@ =~= ensure_present(st1.table, tv[0]));
        }
        if !st.table.contains_name(&rname) {
            st.table.put(ClassDef::new(rname.clone()));
        }
        proof {
            assert(st.table@ =~= ensure_present(ensure_present(st1.table, tv[0]), tv[4]));
        }
        let lm = lc.is_many();
        let rm = rc.is_many();
        if !lm && rm {
            let attr = crate::model::AttributeDef::new(
                crate::model::DataType::FOREIGN_KEY(lname.clone()),
                lname.clone().concat("_fk"),
            );
            st.table.push_attribute(&rname, attr);
        } else if lm && !rm {
            let attr = crate::model::AttributeDef::new(
                crate::model::DataType::FOREIGN_KEY(rname.clone()),
                rname.clone().concat("_fk"),
            );
            st.table.push_attribute(&lname, attr);
        } else if lm && rm {
            let attr = crate::model::AttributeDef::new(
                crate::model::DataType::MANY_TO_MANY(rname.clone()),
                rname.clone().concat("_fk"),
            );
            st.table.push_attribute(&lname, attr);
        }
        proof {
            assert(apply_relation(st1, line@) == Ok::<StateModel, ErrorModel>(st@));
        }
    }
    Ok(st)
}

/// Parses the whole diagram text into the table of class definitions, or
/// reports the first failure; returns exactly what `spec_parse` assigns
/// to the input.  A returned table is a genuine mapping: distinct,
/// upper-cased class names.
pub fn parse_to_ast(input: &str) -> (r: Result<ClassTable, ParseError>)
    ensures
        match r {
            Ok(t) => {
                &&& spec_parse(input@) == Ok::<Seq<ClassModel>, ErrorModel>(t@)
                &&& crate::table::distinct_names(t@)
                &&& crate::props::names_upper(t@)
            },
            Err(e) => spec_parse(input@) == Err::<Seq<ClassModel>, ErrorModel>(e@),
        },
{
    proof {
        crate::props::lemma_parse_wellformed(input@);
    }
    let cs = lower_chars(input);
    let lines = split_lines(&cs);
    let ghost lv = lines.deep_view();
    let mut st = ParserState {
        table: ClassTable::new(),
        current: ClassDef::new(String::new()),
        in_class: false,
    };
    proof {
        assert(st@ =~~= init_state());
    }
    let n = lines.len();
    let mut i: usize = 0;
    while i < n
        invariant
            i <= n,
            n == lines@.len(),
            lv == lines.deep_view(),
            lv == spec_split_lines(lower_seq(input@)),
            run_lines(init_state(), lv, 0) == run_lines(st@, lv, i as int),
        decreases n - i,
    {
        proof {
            assert(lines@[i as int].deep_view() == lv[i as int]);
            assert(lines@[i as int]@ =~= lines@[i as int].deep_view());
        }
        let ghost pre = st@;
        match step_line(st, &lines[i]) {
            Ok(s2) => {
                st = s2;
                proof {
                    assert(run_lines(pre, lv, i as int) == run_lines(st@, lv, i as int + 1));
                }
            },
            Err(e) => {
                proof {
                    assert(run_lines(pre, lv, i as int) == Err::<StateModel, ErrorModel>(e@));
                }
                return Err(e);
            },
        }
        i += 1;
    }
    proof {
        assert(run_lines(st@, lv, n as int) == Ok::<StateModel, ErrorModel>(st@));
    }
    Ok(st.table)
}

} // verus!
