//! Laws of the parser, proved from the specification state machine.
//!
//! The main one: every table a successful parse returns is a genuine
//! mapping — no two classes share a name, and every stored name is
//! upper-cased — so each declared class has exactly one entry, keyed by
//! its upper-cased name.

use vstd::prelude::*;

use crate::cardinality::spec_is_many;
use crate::cardinality::spec_resolve;
use crate::classify::class_names_from;
use crate::classify::lemma_word_end_from;
use crate::classify::lemma_space_end_from;
use crate::classify::rel_tokens_from;
use crate::classify::space_end_from;
use crate::classify::spec_trim;
use crate::classify::strip_quotes;
use crate::classify::token_transform;
use crate::classify::word_end_from;
use crate::model::ClassModel;
use crate::parser::StateModel;
use crate::parser::ErrorModel;
use crate::parser::apply_member;
use crate::parser::apply_opens;
use crate::parser::apply_relation;
use crate::parser::ensure_present;
use crate::parser::init_state;
use crate::parser::run_lines;
use crate::parser::spec_parse;
use crate::parser::spec_step;
use crate::table::distinct_names;
use crate::table::has_name;
use crate::table::lemma_first_with_name;
use crate::table::name_index;
use crate::table::table_at;
use crate::table::table_inject;
use crate::table::table_put;
use crate::table::table_remove;
use crate::text::seq_contains_char;
use crate::text::seq_contains_sub;
use crate::text::upper_char;
use crate::text::upper_seq;

verus! {

/// Every character of `s` is fixed under upper-casing: `s` is an
/// upper-cased name.
pub open spec fn upper_closed(s: Seq<char>) -> bool {
    forall|i: int| 0 <= i < s.len() ==> s[i] == upper_char(s[i])
}

/// Every class name in the table is upper-cased.
pub open spec fn names_upper(s: Seq<ClassModel>) -> bool {
    forall|i: int| 0 <= i < s.len() ==> upper_closed(s[i].name)
}

/// The invariant the state machine maintains: the table is a mapping
/// with distinct, upper-cased names, and the accumulator's name is
/// upper-cased.
pub open spec fn wf_state(st: StateModel) -> bool {
    &&& distinct_names(st.table)
    &&& names_upper(st.table)
    &&& upper_closed(st.current.name)
}

proof fn lemma_upper_seq_closed(s: Seq<char>)
    ensures
        upper_closed(upper_seq(s)),
{
    assert forall|i: int| 0 <= i < upper_seq(s).len() implies upper_seq(s)[i] == upper_char(
        upper_seq(s)[i],
    ) by {
        assert(upper_seq(s)[i] == upper_char(s[i]));
    }
}

proof fn lemma_strip_quotes_upper(s: Seq<char>)
    requires
        upper_closed(s),
    ensures
        upper_closed(strip_quotes(s)),
    decreases s.len(),
{
    if s.len() > 0 {
        assert(upper_closed(s.drop_last()));
        lemma_strip_quotes_upper(s.drop_last());
    }
}

/// Relation tokens are upper-cased by construction.
proof fn lemma_token_transform_upper(t: Seq<char>)
    ensures
        upper_closed(token_transform(t)),
{
    lemma_upper_seq_closed(spec_trim(t));
    lemma_strip_quotes_upper(upper_seq(spec_trim(t)));
}

/// Every name a class-open line yields is upper-cased.
proof fn lemma_class_names_upper(line: Seq<char>, pos: int)
    requires
        0 <= pos <= line.len(),
    ensures
        forall|k: int|
            0 <= k < class_names_from(line, pos).len() ==> upper_closed(
                class_names_from(line, pos)[k],
            ),
    decreases line.len() - pos,
{
    if pos >= line.len() {
    } else if !(crate::text::is_word_char(line[pos])) {
        assert(class_names_from(line, pos) == class_names_from(line, pos + 1));
        lemma_class_names_upper(line, pos + 1);
    } else {
        let j = word_end_from(line, pos);
        assert(word_end_from(line, pos) == word_end_from(line, pos + 1));
        lemma_word_end_from(line, pos + 1);
        if j < line.len() && line[j] == '{' {
            assert(class_names_from(line, pos) == seq![upper_seq(line.subrange(pos, j))]
                + class_names_from(line, j + 1));
            lemma_upper_seq_closed(line.subrange(pos, j));
            lemma_class_names_upper(line, j + 1);
            let names = class_names_from(line, pos);
            assert forall|k: int| 0 <= k < names.len() implies upper_closed(names[k]) by {
                if k == 0 {
                    assert(names[0] == upper_seq(line.subrange(pos, j)));
                } else {
                    assert(names[k] == class_names_from(line, j + 1)[k - 1]);
                }
            }
        } else if j + 1 < line.len() && crate::text::is_space_char(line[j]) && line[j + 1]
            == '{' {
            assert(class_names_from(line, pos) == seq![upper_seq(line.subrange(pos, j))]
                + class_names_from(line, j + 2));
            lemma_upper_seq_closed(line.subrange(pos, j));
            lemma_class_names_upper(line, j + 2);
            let names = class_names_from(line, pos);
            assert forall|k: int| 0 <= k < names.len() implies upper_closed(names[k]) by {
                if k == 0 {
                    assert(names[0] == upper_seq(line.subrange(pos, j)));
                } else {
                    assert(names[k] == class_names_from(line, j + 2)[k - 1]);
                }
            }
        } else {
            assert(class_names_from(line, pos) == class_names_from(line, j));
            lemma_class_names_upper(line, j);
        }
    }
}

/// Every token of a relation line is upper-cased.
proof fn lemma_rel_tokens_upper(line: Seq<char>, pos: int)
    requires
        0 <= pos <= line.len(),
    ensures
        forall|k: int|
            0 <= k < rel_tokens_from(line, pos).len() ==> upper_closed(
                rel_tokens_from(line, pos)[k],
            ),
    decreases line.len() - pos,
{
    if pos >= line.len() {
    } else if line[pos] == ' ' {
        assert(rel_tokens_from(line, pos) == rel_tokens_from(line, pos + 1));
        lemma_rel_tokens_upper(line, pos + 1);
    } else {
        let j = space_end_from(line, pos);
        assert(space_end_from(line, pos) == space_end_from(line, pos + 1));
        lemma_space_end_from(line, pos + 1);
        assert(rel_tokens_from(line, pos) == seq![token_transform(line.subrange(pos, j))]
            + rel_tokens_from(line, j));
        lemma_token_transform_upper(line.subrange(pos, j));
        lemma_rel_tokens_upper(line, j);
        let tks = rel_tokens_from(line, pos);
        assert forall|k: int| 0 <= k < tks.len() implies upper_closed(tks[k]) by {
            if k == 0 {
                assert(tks[0] == token_transform(line.subrange(pos, j)));
            } else {
                assert(tks[k] == rel_tokens_from(line, j)[k - 1]);
            }
        }
    }
}

/// Insert-or-replace keeps the mapping well formed.
proof fn lemma_put_preserves(s: Seq<ClassModel>, c: ClassModel)
    requires
        distinct_names(s),
        names_upper(s),
        upper_closed(c.name),
    ensures
        distinct_names(table_put(s, c)),
        names_upper(table_put(s, c)),
{
    lemma_first_with_name(s, c.name, 0);
    if has_name(s, c.name) {
        let t = s.update(name_index(s, c.name), c);
        assert(distinct_names(t));
        assert(names_upper(t));
    } else {
        let t = s.push(c);
        assert forall|i: int, j: int| 0 <= i < j < t.len() implies t[i].name != t[j].name by {
            if j == s.len() {
                assert(t[i] == s[i]);
            }
        }
        assert(names_upper(t));
    }
}

/// Removal keeps the mapping well formed.
proof fn lemma_remove_preserves(s: Seq<ClassModel>, name: Seq<char>)
    requires
        distinct_names(s),
        names_upper(s),
    ensures
        distinct_names(table_remove(s, name)),
        names_upper(table_remove(s, name)),
{
    lemma_first_with_name(s, name, 0);
    if has_name(s, name) {
        let i = name_index(s, name);
        let t = s.remove(i);
        s.remove_ensures(i);
        assert forall|a: int, b: int| 0 <= a < b < t.len() implies t[a].name != t[b].name by {
            let a2: int = if a < i {
                a
            } else {
                a + 1
            };
            let b2: int = if b < i {
                b
            } else {
                b + 1
            };
            assert(t[a] == s[a2]);
            assert(t[b] == s[b2]);
        }
        assert forall|k: int| 0 <= k < t.len() implies upper_closed(t[k].name) by {
            let k2: int = if k < i {
                k
            } else {
                k + 1
            };
            assert(t[k] == s[k2]);
        }
    }
}

/// Injecting an attribute keeps the mapping well formed: the class keeps
/// its name.
proof fn lemma_inject_preserves(s: Seq<ClassModel>, name: Seq<char>, a: crate::model::AttributeModel)
    requires
        distinct_names(s),
        names_upper(s),
    ensures
        distinct_names(table_inject(s, name, a)),
        names_upper(table_inject(s, name, a)),
{
    lemma_first_with_name(s, name, 0);
}

/// Creating a missing class keeps the mapping well formed.
proof fn lemma_ensure_preserves(s: Seq<ClassModel>, name: Seq<char>)
    requires
        distinct_names(s),
        names_upper(s),
        upper_closed(name),
    ensures
        distinct_names(ensure_present(s, name)),
        names_upper(ensure_present(s, name)),
{
    lemma_first_with_name(s, name, 0);
    if !has_name(s, name) {
        let t = s.push(crate::model::empty_class_model(name));
        assert forall|i: int, j: int| 0 <= i < j < t.len() implies t[i].name != t[j].name by {
            if j == s.len() {
                assert(t[i] == s[i]);
            }
        }
        assert(names_upper(t));
    }
}

/// Applying class-open names keeps the state well formed.
proof fn lemma_apply_opens_wf(st: StateModel, names: Seq<Seq<char>>, i: int)
    requires
        wf_state(st),
        0 <= i <= names.len(),
        forall|k: int| 0 <= k < names.len() ==> upper_closed(names[k]),
    ensures
        wf_state(apply_opens(st, names, i)),
    decreases names.len() - i,
{
    if i < names.len() {
        let nm = names[i];
        if has_name(st.table, nm) {
            lemma_first_with_name(st.table, nm, 0);
            lemma_remove_preserves(st.table, nm);
            let st2 = StateModel {
                table: table_remove(st.table, nm),
                current: table_at(st.table, nm),
                in_class: st.in_class,
            };
            assert(upper_closed(st2.current.name));
            lemma_apply_opens_wf(st2, names, i + 1);
        } else {
            let st2 = StateModel {
                table: st.table,
                current: ClassModel {
                    name: nm,
                    attributes: st.current.attributes,
                    functions: st.current.functions,
                },
                in_class: st.in_class,
            };
            lemma_apply_opens_wf(st2, names, i + 1);
        }
    }
}

/// One step of the state machine keeps the state well formed.
proof fn lemma_step_preserves_wf(st: StateModel, line: Seq<char>)
    requires
        wf_state(st),
    ensures
        spec_step(st, line) matches Ok(st2) ==> wf_state(st2),
{
    if seq_contains_sub(line, "classdiagram"@) {
    } else {
        let st1 = if seq_contains_char(line, '}') {
            lemma_put_preserves(st.table, st.current);
            StateModel {
                table: table_put(st.table, st.current),
                current: crate::model::empty_class_model(Seq::empty()),
                in_class: false,
            }
        } else if seq_contains_sub(line, "class"@) {
            lemma_class_names_upper(line, 0);
            lemma_apply_opens_wf(st, class_names_from(line, 0), 0);
            let st2 = apply_opens(st, class_names_from(line, 0), 0);
            StateModel { table: st2.table, current: st2.current, in_class: true }
        } else if st.in_class {
            apply_member(st, line)
        } else {
            st
        };
        assert(wf_state(st1));
        if seq_contains_sub(line, "--"@) {
            let tks = rel_tokens_from(line, 0);
            if tks.len() >= 5 && spec_resolve(tks[1]) is Some && spec_resolve(tks[3]) is Some {
                lemma_rel_tokens_upper(line, 0);
                lemma_ensure_preserves(st1.table, tks[0]);
                lemma_ensure_preserves(ensure_present(st1.table, tks[0]), tks[4]);
                let t = ensure_present(ensure_present(st1.table, tks[0]), tks[4]);
                let lm = spec_is_many(spec_resolve(tks[1])->Some_0);
                let rm = spec_is_many(spec_resolve(tks[3])->Some_0);
                if !lm && rm {
                    lemma_inject_preserves(
                        t,
                        tks[4],
                        crate::model::AttributeModel {
                            data_type: crate::model::DataTypeModel::FOREIGN_KEY(tks[0]),
                            name: crate::parser::fk_name(tks[0]),
                        },
                    );
                } else if lm && !rm {
                    lemma_inject_preserves(
                        t,
                        tks[0],
                        crate::model::AttributeModel {
                            data_type: crate::model::DataTypeModel::FOREIGN_KEY(tks[4]),
                            name: crate::parser::fk_name(tks[4]),
                        },
                    );
                } else if lm && rm {
                    lemma_inject_preserves(
                        t,
                        tks[0],
                        crate::model::AttributeModel {
                            data_type: crate::model::DataTypeModel::MANY_TO_MANY(tks[4]),
                            name: crate::parser::fk_name(tks[4]),
                        },
                    );
                }
            }
        }
    }
}

proof fn lemma_run_preserves_wf(st: StateModel, lines: Seq<Seq<char>>, i: int)
    requires
        wf_state(st),
        0 <= i <= lines.len(),
    ensures
        run_lines(st, lines, i) matches Ok(st2) ==> wf_state(st2),
    decreases lines.len() - i,
{
    if i < lines.len() {
        lemma_step_preserves_wf(st, lines[i]);
        match spec_step(st, lines[i]) {
            Ok(st2) => {
                lemma_run_preserves_wf(st2, lines, i + 1);
            },
            Err(_) => {},
        }
    }
}

/// Every mapping a successful parse returns is well formed: no two
/// classes share a name — each declared class has exactly one entry —
/// and every key is the upper-cased name of its class.
pub proof fn lemma_parse_wellformed(input: Seq<char>)
    ensures
        spec_parse(input) matches Ok(t) ==> distinct_names(t) && names_upper(t),
{
    assert(wf_state(init_state()));
    lemma_run_preserves_wf(
        init_state(),
        crate::text::spec_split_lines(crate::text::lower_seq(input)),
        0,
    );
}

/// Re-opening a known class merges: on a class-open line naming exactly
/// one class that the table already holds, the existing definition —
/// attributes and functions included — is pulled back out of the table
/// and becomes the open accumulator, so later members append to it.
pub proof fn lemma_reopen_merges(st: StateModel, line: Seq<char>, nm: Seq<char>)
    requires
        !seq_contains_sub(line, "classdiagram"@),
        !seq_contains_char(line, '}'),
        seq_contains_sub(line, "class"@),
        !seq_contains_sub(line, "--"@),
        class_names_from(line, 0) == seq![nm],
        has_name(st.table, nm),
    ensures
        spec_step(st, line) == Ok::<StateModel, ErrorModel>(
            StateModel {
                table: table_remove(st.table, nm),
                current: table_at(st.table, nm),
                in_class: true,
            },
        ),
{
    let names = class_names_from(line, 0);
    assert(names[0] == nm);
    let st2 = StateModel {
        table: table_remove(st.table, nm),
        current: table_at(st.table, nm),
        in_class: st.in_class,
    };
    assert(apply_opens(st, names, 0) == apply_opens(st2, names, 1));
    assert(apply_opens(st2, names, 1) == st2);
}

/// A relation line with two resolvable, non-many cardinalities injects
/// no attribute: both named classes exist afterwards — created empty
/// when absent — and nothing else changes.
pub proof fn lemma_one_to_one_injects_nothing(st: StateModel, line: Seq<char>)
    requires
        rel_tokens_from(line, 0).len() >= 5,
        spec_resolve(rel_tokens_from(line, 0)[1]) matches Some(lc) && !spec_is_many(lc),
        spec_resolve(rel_tokens_from(line, 0)[3]) matches Some(rc) && !spec_is_many(rc),
    ensures
        apply_relation(st, line) == Ok::<StateModel, ErrorModel>(
            StateModel {
                table: ensure_present(
                    ensure_present(st.table, rel_tokens_from(line, 0)[0]),
                    rel_tokens_from(line, 0)[4],
                ),
                current: st.current,
                in_class: st.in_class,
            },
        ),
{
}

/// A section-marker line.
pub open spec fn is_marker_line(line: Seq<char>) -> bool {
    seq_contains_sub(line, "classdiagram"@)
}

/// A line that opens exactly the one class named `nm` and does nothing
/// else.
pub open spec fn is_open_line(line: Seq<char>, nm: Seq<char>) -> bool {
    &&& !is_marker_line(line)
    &&& !seq_contains_char(line, '}')
    &&& seq_contains_sub(line, "class"@)
    &&& !seq_contains_sub(line, "--"@)
    &&& class_names_from(line, 0) == seq![nm]
}

/// A line inside a class block: classified neither as marker, close,
/// open nor relation, so at most a member declaration.
pub open spec fn is_member_line(line: Seq<char>) -> bool {
    &&& !is_marker_line(line)
    &&& !seq_contains_char(line, '}')
    &&& !seq_contains_sub(line, "class"@)
    &&& !seq_contains_sub(line, "--"@)
}

/// A line that closes the open class and does nothing else.
pub open spec fn is_close_line(line: Seq<char>) -> bool {
    &&& !is_marker_line(line)
    &&& seq_contains_char(line, '}')
    &&& !seq_contains_sub(line, "--"@)
}

/// The fold of `apply_member` over `lines[i..j]`: the open class after
/// those member lines, in declaration order.
pub open spec fn run_members(st: StateModel, lines: Seq<Seq<char>>, i: int, j: int) -> StateModel
    decreases j - i,
    when i <= j
{
    if i >= j {
        st
    } else {
        run_members(apply_member(st, lines[i]), lines, i + 1, j)
    }
}

proof fn lemma_member_keeps(st: StateModel, line: Seq<char>)
    ensures
        apply_member(st, line).table == st.table,
        apply_member(st, line).in_class == st.in_class,
        apply_member(st, line).current.name == st.current.name,
{
}

proof fn lemma_run_members_keeps(st: StateModel, lines: Seq<Seq<char>>, i: int, j: int)
    requires
        i <= j,
    ensures
        run_members(st, lines, i, j).table == st.table,
        run_members(st, lines, i, j).in_class == st.in_class,
        run_members(st, lines, i, j).current.name == st.current.name,
    decreases j - i,
{
    if i < j {
        lemma_member_keeps(st, lines[i]);
        lemma_run_members_keeps(apply_member(st, lines[i]), lines, i + 1, j);
    }
}

proof fn lemma_member_segment(st: StateModel, lines: Seq<Seq<char>>, i: int, j: int)
    requires
        0 <= i <= j <= lines.len(),
        st.in_class,
        forall|k: int| i <= k < j ==> is_member_line(lines[k]),
    ensures
        run_lines(st, lines, i) == run_lines(run_members(st, lines, i, j), lines, j),
    decreases j - i,
{
    if i < j {
        assert(spec_step(st, lines[i]) == Ok::<StateModel, ErrorModel>(apply_member(st, lines[i])));
        lemma_member_keeps(st, lines[i]);
        lemma_member_segment(apply_member(st, lines[i]), lines, i + 1, j);
    }
}

/// A whole class block over a fresh name appends exactly one entry: an
/// open line naming the fresh `nm`, member lines, and a close line leave
/// the table with one new class appended, named `nm`, whose attributes
/// and functions are those of the member lines folded in declaration
/// order, and parsing continues after the block with a reset
/// accumulator.
pub proof fn lemma_class_block(
    st: StateModel,
    lines: Seq<Seq<char>>,
    i: int,
    j: int,
    nm: Seq<char>,
)
    requires
        0 <= i < j < lines.len(),
        is_open_line(lines[i], nm),
        forall|k: int| i < k < j ==> is_member_line(lines[k]),
        is_close_line(lines[j]),
        !has_name(st.table, nm),
    ensures
        ({
            let opened = StateModel {
                table: st.table,
                current: ClassModel {
                    name: nm,
                    attributes: st.current.attributes,
                    functions: st.current.functions,
                },
                in_class: true,
            };
            let done = run_members(opened, lines, i + 1, j);
            run_lines(st, lines, i) == run_lines(
                StateModel {
                    table: st.table.push(done.current),
                    current: crate::model::empty_class_model(Seq::empty()),
                    in_class: false,
                },
                lines,
                j + 1,
            )
        }),
{
    let names = class_names_from(lines[i], 0);
    assert(names[0] == nm);
    let renamed = StateModel {
        table: st.table,
        current: ClassModel {
            name: nm,
            attributes: st.current.attributes,
            functions: st.current.functions,
        },
        in_class: st.in_class,
    };
    assert(apply_opens(st, names, 0) == apply_opens(renamed, names, 1));
    assert(apply_opens(renamed, names, 1) == renamed);
    let opened = StateModel { table: renamed.table, current: renamed.current, in_class: true };
    assert(spec_step(st, lines[i]) == Ok::<StateModel, ErrorModel>(opened));
    lemma_member_segment(opened, lines, i + 1, j);
    let done = run_members(opened, lines, i + 1, j);
    lemma_run_members_keeps(opened, lines, i + 1, j);
    assert(done.table == st.table);
    assert(done.current.name == nm);
    lemma_first_with_name(st.table, nm, 0);
    assert(!has_name(done.table, done.current.name));
    assert(table_put(done.table, done.current) == st.table.push(done.current));
    assert(spec_step(done, lines[j]) == Ok::<StateModel, ErrorModel>(
        StateModel {
            table: st.table.push(done.current),
            current: crate::model::empty_class_model(Seq::empty()),
            in_class: false,
        },
    ));
}

proof fn lemma_run_no_relation(st: StateModel, lines: Seq<Seq<char>>, i: int)
    requires
        0 <= i <= lines.len(),
        forall|k: int| i <= k < lines.len() ==> !seq_contains_sub(lines[k], "--"@),
    ensures
        run_lines(st, lines, i) is Ok,
    decreases lines.len() - i,
{
    if i < lines.len() {
        assert(spec_step(st, lines[i]) is Ok);
        lemma_run_no_relation(spec_step(st, lines[i])->Ok_0, lines, i + 1);
    }
}

/// Success is owed whenever no line declares a relation: the only
/// failures a parse can report come from relation lines, so an input
/// with only class blocks always yields a mapping.
pub proof fn lemma_parse_without_relations_succeeds(input: Seq<char>)
    requires
        forall|k: int|
            0 <= k < crate::text::spec_split_lines(crate::text::lower_seq(input)).len()
                ==> !seq_contains_sub(
                crate::text::spec_split_lines(crate::text::lower_seq(input))[k],
                "--"@,
            ),
    ensures
        spec_parse(input) is Ok,
{
    lemma_run_no_relation(
        init_state(),
        crate::text::spec_split_lines(crate::text::lower_seq(input)),
        0,
    );
}

/// Parsing is a pure function of the input text: parsing the same input
/// twice yields structurally identical results, member order included.
pub proof fn lemma_parse_idempotent(a: Seq<char>, b: Seq<char>)
    requires
        a == b,
    ensures
        spec_parse(a) == spec_parse(b),
{
}

} // verus!
