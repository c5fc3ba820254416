//! The differences between a spec and an implementation.
use vstd::prelude::*;

use crate::checker::{any_contained, contains_any};
use crate::data::{append_item, has_key, keys, list_contains};
use crate::extractors::{ExtractedModule, ExtractedModuleModel};
use crate::spec::{ModuleSpec, ModuleSpecModel, ProtocolSpec, ProtocolSpecModel, TransitionModel};
use crate::text;

verus! {

/// What a line of a report is marked as.
#[derive(Debug, Clone, Copy, PartialEq, Eq, Structural)]
pub enum Mark {
    /// A title
    Title,
    /// A blank line
    Blank,
    /// No mark
    Plain,
    /// As specified
    Good,
    /// Against the spec
    Bad,
    /// Not in the spec
    Unknown,
    /// Specified, and not used
    Unused,
    /// An explanation
    Arrow,
}

impl DeepView for Mark {
    type V = Mark;

    open spec fn deep_view(&self) -> Mark {
        *self
    }
}

/// A line of a report.
#[derive(Debug)]
pub struct DiffLine {
    pub mark: Mark,
    /// How far the line is indented.
    pub indent: usize,
    pub text: String,
}

/// What a [`DiffLine`] holds.
#[verifier::ext_equal]
pub struct DiffLineModel {
    pub mark: Mark,
    pub indent: usize,
    pub text: Seq<char>,
}

impl DeepView for DiffLine {
    type V = DiffLineModel;

    open spec fn deep_view(&self) -> DiffLineModel {
        DiffLineModel {
            mark: self.mark,
            indent: self.indent,
            text: self.text.deep_view(),
        }
    }
}

pub open spec fn line(mark: Mark, indent: usize, text: Seq<char>) -> DiffLineModel {
    DiffLineModel { mark, indent, text }
}

fn make_line(mark: Mark, indent: usize, text: String) -> (r: DiffLine)
    ensures
        r.deep_view() == line(mark, indent, text@),
{
    DiffLine { mark, indent, text }
}

fn joined(a: &str, b: &str) -> (r: String)
    ensures
        r@ == a@ + b@,
{
    let mut s = a.to_owned();
    s.append(b);
    s
}

pub open spec fn blank() -> DiffLineModel {
    line(Mark::Blank, 0, ""@)
}

/// What is said of a name that is specified.
pub open spec fn specified_line(name: Seq<char>, implemented: Seq<Seq<char>>) -> DiffLineModel {
    if implemented.contains(name) {
        line(Mark::Good, 2, name + " (spec + impl)"@)
    } else {
        line(Mark::Bad, 2, name + " (spec only - MISSING)"@)
    }
}

/// What is said of those of the first `k` implemented names that are not specified.
pub open spec fn extra_lines(
    implemented: Seq<Seq<char>>,
    specified: Seq<Seq<char>>,
    k: int,
) -> Seq<DiffLineModel>
    decreases k,
{
    if k <= 0 || k > implemented.len() {
        Seq::empty()
    } else if specified.contains(implemented[k - 1]) {
        extra_lines(implemented, specified, k - 1)
    } else {
        extra_lines(implemented, specified, k - 1).push(
            line(Mark::Unknown, 2, implemented[k - 1] + " (impl only - NOT IN SPEC)"@),
        )
    }
}

/// What is said of names that are specified and names that are implemented.
pub open spec fn name_lines(specified: Seq<Seq<char>>, implemented: Seq<Seq<char>>) -> Seq<
    DiffLineModel,
> {
    specified.map_values(|n: Seq<char>| specified_line(n, implemented)) + extra_lines(
        implemented,
        specified,
        implemented.len() as int,
    )
}

fn add_names_compared(
    specified: &Vec<String>,
    implemented: &Vec<String>,
    out: &mut Vec<DiffLine>,
)
    ensures
        final(out).deep_view() == old(out).deep_view() + name_lines(
            specified.deep_view(),
            implemented.deep_view(),
        ),
{
    let ghost start = out.deep_view();
    let ghost all = specified.deep_view().map_values(
        |n: Seq<char>| specified_line(n, implemented.deep_view()),
    );
    let mut i: usize = 0;
    assert(start + all.take(0) =~= start);
    while i < specified.len()
        invariant
            i <= specified@.len(),
            all == specified.deep_view().map_values(
                |n: Seq<char>| specified_line(n, implemented.deep_view()),
            ),
            out.deep_view() == start + all.take(i as int),
        decreases specified@.len() - i,
    {
        assert(specified.deep_view()[i as int] == specified@[i as int]@);
        let name = &specified[i];
        if list_contains(implemented.as_slice(), name) {
            append_item(out, make_line(Mark::Good, 2, joined(name.as_str(), " (spec + impl)")));
        } else {
            append_item(
                out,
                make_line(Mark::Bad, 2, joined(name.as_str(), " (spec only - MISSING)")),
            );
        }
        assert(start + all.take(i + 1) =~= (start + all.take(i as int)).push(all[i as int]));
        i += 1;
    }
    assert(all.take(all.len() as int) =~= all);
    let mut k: usize = 0;
    assert(start + all + Seq::<DiffLineModel>::empty() =~= start + all);
    while k < implemented.len()
        invariant
            k <= implemented@.len(),
            out.deep_view() == start + all + extra_lines(
                implemented.deep_view(),
                specified.deep_view(),
                k as int,
            ),
        decreases implemented@.len() - k,
    {
        let ghost before = extra_lines(implemented.deep_view(), specified.deep_view(), k as int);
        assert(implemented.deep_view()[k as int] == implemented@[k as int]@);
        let name = &implemented[k];
        if !list_contains(specified.as_slice(), name) {
            let extra = make_line(
                Mark::Unknown,
                2,
                joined(name.as_str(), " (impl only - NOT IN SPEC)"),
            );
            let ghost added = extra.deep_view();
            append_item(out, extra);
            assert((start + all + before).push(added) =~= start + all + before.push(added));
        }
        k += 1;
    }
    assert(out.deep_view() =~= start + name_lines(
        specified.deep_view(),
        implemented.deep_view(),
    ));
}

/// Whether one of the texts contains a name.
pub open spec fn any_contains(texts: Seq<Seq<char>>, name: Seq<char>) -> bool {
    exists|i: int| 0 <= i < texts.len() && text::contains(#[trigger] texts[i], name)
}

fn find_any_containing(texts: &Vec<String>, name: &str) -> (b: bool)
    ensures
        b == any_contains(texts.deep_view(), name@),
{
    let ghost all = texts.deep_view();
    let mut i: usize = 0;
    while i < texts.len()
        invariant
            i <= texts@.len(),
            all == texts.deep_view(),
            forall|j: int| 0 <= j < i ==> !text::contains(#[trigger] all[j], name@),
        decreases texts@.len() - i,
    {
        assert(all[i as int] == texts@[i as int]@);
        if text::text_contains(texts[i].as_str(), name) {
            assert(text::contains(all[i as int], name@));
            return true;
        }
        i += 1;
    }
    false
}

/// What is said of a dependency that is allowed.
pub open spec fn allowed_line(dep: Seq<char>, imports: Seq<Seq<char>>) -> DiffLineModel {
    if any_contains(imports, dep) {
        line(Mark::Good, 2, dep + " (allowed + used)"@)
    } else {
        line(Mark::Unused, 2, dep + " (allowed, not used)"@)
    }
}

/// What is said of the first `k` imports: of those that are forbidden, and of those that are
/// not allowed.
pub open spec fn import_lines(spec: ModuleSpecModel, imports: Seq<Seq<char>>, k: int) -> Seq<
    DiffLineModel,
>
    decreases k,
{
    if k <= 0 || k > imports.len() {
        Seq::empty()
    } else {
        let before = import_lines(spec, imports, k - 1);
        let import = imports[k - 1];
        if contains_any(import, spec.forbidden_deps) {
            before.push(line(Mark::Bad, 2, import + " (FORBIDDEN)"@))
        } else if !contains_any(import, spec.depends_on) {
            before.push(line(Mark::Unknown, 2, import + " (not in spec)"@))
        } else {
            before
        }
    }
}

pub open spec fn dependency_lines(spec: ModuleSpecModel, imports: Seq<Seq<char>>) -> Seq<
    DiffLineModel,
> {
    spec.depends_on.map_values(|d: Seq<char>| allowed_line(d, imports)) + import_lines(
        spec,
        imports,
        imports.len() as int,
    )
}

fn add_dependencies_compared(spec: &ModuleSpec, imports: &Vec<String>, out: &mut Vec<DiffLine>)
    ensures
        final(out).deep_view() == old(out).deep_view() + dependency_lines(
            spec.deep_view(),
            imports.deep_view(),
        ),
{
    let ghost start = out.deep_view();
    let ghost model = spec.deep_view();
    let ghost all = model.depends_on.map_values(
        |d: Seq<char>| allowed_line(d, imports.deep_view()),
    );
    let mut i: usize = 0;
    assert(start + all.take(0) =~= start);
    while i < spec.depends_on.len()
        invariant
            i <= spec.depends_on@.len(),
            model == spec.deep_view(),
            all == model.depends_on.map_values(
                |d: Seq<char>| allowed_line(d, imports.deep_view()),
            ),
            out.deep_view() == start + all.take(i as int),
        decreases spec.depends_on@.len() - i,
    {
        assert(model.depends_on[i as int] == spec.depends_on@[i as int]@);
        let dep = spec.depends_on[i].as_str();
        if find_any_containing(imports, dep) {
            append_item(out, make_line(Mark::Good, 2, joined(dep, " (allowed + used)")));
        } else {
            append_item(out, make_line(Mark::Unused, 2, joined(dep, " (allowed, not used)")));
        }
        assert(start + all.take(i + 1) =~= (start + all.take(i as int)).push(all[i as int]));
        i += 1;
    }
    assert(all.take(all.len() as int) =~= all);
    let mut k: usize = 0;
    assert(start + all + Seq::<DiffLineModel>::empty() =~= start + all);
    while k < imports.len()
        invariant
            k <= imports@.len(),
            model == spec.deep_view(),
            out.deep_view() == start + all + import_lines(model, imports.deep_view(), k as int),
        decreases imports@.len() - k,
    {
        let ghost before = import_lines(model, imports.deep_view(), k as int);
        assert(imports.deep_view()[k as int] == imports@[k as int]@);
        let import = imports[k].as_str();
        if any_contained(import, &spec.forbidden_deps) {
            let found = make_line(Mark::Bad, 2, joined(import, " (FORBIDDEN)"));
            let ghost added = found.deep_view();
            append_item(out, found);
            assert((start + all + before).push(added) =~= start + all + before.push(added));
        } else if !any_contained(import, &spec.depends_on) {
            let found = make_line(Mark::Unknown, 2, joined(import, " (not in spec)"));
            let ghost added = found.deep_view();
            append_item(out, found);
            assert((start + all + before).push(added) =~= start + all + before.push(added));
        }
        k += 1;
    }
    assert(out.deep_view() =~= start + dependency_lines(model, imports.deep_view()));
}

/// A section, where there is anything to say in it.
pub open spec fn optional_section(
    title: Seq<char>,
    specified: Seq<Seq<char>>,
    implemented: Seq<Seq<char>>,
) -> Seq<DiffLineModel> {
    if specified.len() == 0 && implemented.len() == 0 {
        Seq::empty()
    } else {
        seq![blank(), line(Mark::Title, 0, title)] + name_lines(specified, implemented)
    }
}

fn add_title(title: &str, out: &mut Vec<DiffLine>)
    ensures
        final(out).deep_view() == old(out).deep_view() + seq![
            blank(),
            line(Mark::Title, 0, title@),
        ],
{
    let ghost start = out.deep_view();
    append_item(out, make_line(Mark::Blank, 0, "".to_owned()));
    append_item(out, make_line(Mark::Title, 0, title.to_owned()));
    assert(out.deep_view() =~= start + seq![blank(), line(Mark::Title, 0, title@)]);
}

fn add_optional_section(
    title: &str,
    specified: &Vec<String>,
    implemented: &Vec<String>,
    out: &mut Vec<DiffLine>,
)
    ensures
        final(out).deep_view() == old(out).deep_view() + optional_section(
            title@,
            specified.deep_view(),
            implemented.deep_view(),
        ),
{
    let ghost start = out.deep_view();
    if specified.len() > 0 || implemented.len() > 0 {
        add_title(title, out);
        add_names_compared(specified, implemented, out);
    }
    assert(out.deep_view() =~= start + optional_section(
        title@,
        specified.deep_view(),
        implemented.deep_view(),
    ));
}

/// Texts in quotes, as a list.
pub open spec fn quoted_list(items: Seq<Seq<char>>) -> Seq<char> {
    "["@ + text::join(items.map_values(|s: Seq<char>| text::quoted(s)), ", "@) + "]"@
}

fn write_quoted_list(items: &Vec<String>) -> (r: String)
    ensures
        r@ == quoted_list(items.deep_view()),
{
    let ghost all = items.deep_view().map_values(|s: Seq<char>| text::quoted(s));
    let mut texts: Vec<String> = Vec::new();
    let mut i: usize = 0;
    assert(texts.deep_view() =~= all.take(0));
    while i < items.len()
        invariant
            i <= items@.len(),
            all == items.deep_view().map_values(|s: Seq<char>| text::quoted(s)),
            texts.deep_view() == all.take(i as int),
        decreases items@.len() - i,
    {
        assert(items.deep_view()[i as int] == items@[i as int]@);
        append_item(&mut texts, text::debug_quoted(items[i].as_str()));
        assert(all.take(i + 1) =~= all.take(i as int).push(all[i as int]));
        i += 1;
    }
    assert(all.take(all.len() as int) =~= all);
    let mut out = "[".to_owned();
    out.append(text::join_strings(texts.as_slice(), ", ").as_str());
    out.append("]");
    out
}

/// What is said of a transition: whether its function exists.
pub open spec fn transition_line(t: TransitionModel, m: ExtractedModuleModel) -> DiffLineModel {
    line(
        if m.public_functions.contains(t.call) || has_key(m.function_info, t.call) {
            Mark::Good
        } else {
            Mark::Bad
        },
        4,
        t.from + " -> "@ + t.call + "() -> "@ + t.to,
    )
}

pub open spec fn pair_lines(pairs: Seq<(Seq<char>, Seq<char>)>) -> Seq<DiffLineModel> {
    if pairs.len() == 0 {
        Seq::empty()
    } else {
        seq![line(Mark::Plain, 2, "Balanced pairs:"@)] + pairs.map_values(
            |p: (Seq<char>, Seq<char>)|
                line(Mark::Plain, 4, "["@ + p.0 + ", "@ + p.1 + "]"@),
        )
    }
}

/// What is said of a protocol.
pub open spec fn protocol_lines(p: ProtocolSpecModel, m: ExtractedModuleModel) -> Seq<DiffLineModel> {
    seq![
        line(
            Mark::Plain,
            2,
            "States: "@ + text::join(p.states, ", "@) + " | Initial: "@ + p.initial
                + " | Terminal: "@ + quoted_list(p.terminal),
        ),
        line(Mark::Plain, 2, "Transitions: "@ + text::decimal(p.transitions.len())),
    ] + p.transitions.map_values(|t: TransitionModel| transition_line(t, m)) + pair_lines(
        p.balanced_pairs,
    )
}

fn add_protocol(p: &ProtocolSpec, m: &ExtractedModule, out: &mut Vec<DiffLine>)
    ensures
        final(out).deep_view() == old(out).deep_view() + protocol_lines(
            p.deep_view(),
            m.deep_view(),
        ),
{
    let ghost start = out.deep_view();
    let ghost model = p.deep_view();
    let ghost module = m.deep_view();
    let mut states = "States: ".to_owned();
    states.append(text::join_strings(p.states.as_slice(), ", ").as_str());
    states.append(" | Initial: ");
    states.append(p.initial.as_str());
    states.append(" | Terminal: ");
    states.append(write_quoted_list(&p.terminal).as_str());
    append_item(out, make_line(Mark::Plain, 2, states));
    let count: usize = p.transitions.len();
    append_item(
        out,
        make_line(Mark::Plain, 2, joined("Transitions: ", text::usize_string(count).as_str())),
    );
    let ghost head = out.deep_view();
    let ghost all = model.transitions.map_values(|t: TransitionModel| transition_line(t, module));
    let mut i: usize = 0;
    assert(head + all.take(0) =~= head);
    while i < p.transitions.len()
        invariant
            i <= p.transitions@.len(),
            module == m.deep_view(),
            all == p.deep_view().transitions.map_values(
                |t: TransitionModel| transition_line(t, module),
            ),
            out.deep_view() == head + all.take(i as int),
        decreases p.transitions@.len() - i,
    {
        let t = &p.transitions[i];
        assert(p.deep_view().transitions[i as int] == t.deep_view());
        let known = list_contains(m.public_functions.as_slice(), &t.call)
            || m.function_info.contains_key(t.call.as_str());
        let mark = if known {
            Mark::Good
        } else {
            Mark::Bad
        };
        let mut arrow = t.from.clone();
        arrow.append(" -> ");
        arrow.append(t.call.as_str());
        arrow.append("() -> ");
        arrow.append(t.to.as_str());
        append_item(out, make_line(mark, 4, arrow));
        assert(head + all.take(i + 1) =~= (head + all.take(i as int)).push(all[i as int]));
        i += 1;
    }
    assert(all.take(all.len() as int) =~= all);
    if p.balanced_pairs.len() > 0 {
        append_item(out, make_line(Mark::Plain, 2, "Balanced pairs:".to_owned()));
    }
    let ghost before = out.deep_view();
    let ghost rest = model.balanced_pairs.map_values(
        |p: (Seq<char>, Seq<char>)| line(Mark::Plain, 4, "["@ + p.0 + ", "@ + p.1 + "]"@),
    );
    let mut k: usize = 0;
    assert(before + rest.take(0) =~= before);
    while k < p.balanced_pairs.len()
        invariant
            k <= p.balanced_pairs@.len(),
            rest == p.deep_view().balanced_pairs.map_values(
                |p: (Seq<char>, Seq<char>)| line(Mark::Plain, 4, "["@ + p.0 + ", "@ + p.1 + "]"@),
            ),
            out.deep_view() == before + rest.take(k as int),
        decreases p.balanced_pairs@.len() - k,
    {
        assert(p.deep_view().balanced_pairs[k as int] == p.balanced_pairs@[k as int].deep_view());
        let mut pair = "[".to_owned();
        pair.append(p.balanced_pairs[k].0.as_str());
        pair.append(", ");
        pair.append(p.balanced_pairs[k].1.as_str());
        pair.append("]");
        append_item(out, make_line(Mark::Plain, 4, pair));
        assert(before + rest.take(k + 1) =~= (before + rest.take(k as int)).push(rest[k as int]));
        k += 1;
    }
    assert(rest.take(rest.len() as int) =~= rest);
    assert(out.deep_view() =~= start + protocol_lines(model, module));
}

/// The report on the differences between a spec and an implementation.
pub open spec fn difference(spec: ModuleSpecModel, m: ExtractedModuleModel) -> Seq<DiffLineModel> {
    seq![line(Mark::Title, 0, "Exposed Functions:"@)] + name_lines(
        keys(spec.exposes),
        m.public_functions,
    ) + seq![blank(), line(Mark::Title, 0, "Dependencies:"@)] + dependency_lines(spec, m.imports)
        + optional_section("State Variables:"@, spec.owns_state, m.state_variables)
        + optional_section("Events:"@, spec.emits, m.events) + (match spec.protocol {
        Some(p) => seq![blank(), line(Mark::Title, 0, "Protocol:"@)] + protocol_lines(p, m),
        None => Seq::empty(),
    })
}

/// Reports the differences between a spec and an implementation, line by line.
pub fn diff_lines(spec: &ModuleSpec, extracted: &ExtractedModule) -> (r: Vec<DiffLine>)
    ensures
        r.deep_view() == difference(spec.deep_view(), extracted.deep_view()),
{
    let ghost model = spec.deep_view();
    let ghost module = extracted.deep_view();
    let mut out: Vec<DiffLine> = Vec::new();
    append_item(&mut out, make_line(Mark::Title, 0, "Exposed Functions:".to_owned()));
    let names = spec.exposes.keys();
    add_names_compared(&names, &extracted.public_functions, &mut out);
    add_title("Dependencies:", &mut out);
    add_dependencies_compared(spec, &extracted.imports, &mut out);
    add_optional_section(
        "State Variables:",
        &spec.owns_state,
        &extracted.state_variables,
        &mut out,
    );
    add_optional_section("Events:", &spec.emits, &extracted.events, &mut out);
    match &spec.protocol {
        Some(p) => {
            add_title("Protocol:", &mut out);
            add_protocol(p, extracted, &mut out);
        },
        None => {},
    }
    assert(out.deep_view() =~= difference(model, module));
    out
}

// ─── Laws ─────────────────────────────────────────────────────────────────────

/// Where a spec and an implementation have the same names, nothing is missing and nothing is
/// unspecified.
pub proof fn same_names_differ_in_nothing(names: Seq<Seq<char>>, i: int)
    requires
        0 <= i < name_lines(names, names).len(),
    ensures
        name_lines(names, names).len() == names.len(),
        name_lines(names, names)[i] == line(Mark::Good, 2, names[i] + " (spec + impl)"@),
{
    lemma_no_extra_lines(names, names.len() as int);
    assert(names.contains(names[i]));
}

proof fn lemma_no_extra_lines(names: Seq<Seq<char>>, k: int)
    ensures
        extra_lines(names, names, k).len() == 0,
    decreases k,
{
    if 0 < k <= names.len() {
        lemma_no_extra_lines(names, k - 1);
        assert(names.contains(names[k - 1]));
    }
}

} // verus!
