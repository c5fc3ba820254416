//! Queries to an SMT solver, in SMT-LIB2, and what its replies mean.
//!
//! Between what patterns in the code decide and what a language model is asked stands what a
//! solver can decide.
use vstd::prelude::*;

use crate::data::{add_name, append_item, list_contains, result_view, Duplicate, Same};
use crate::text;

verus! {

// ─── Replies ──────────────────────────────────────────────────────────────────

/// What a solver says of a query.
#[derive(Debug, PartialEq, Eq)]
pub enum SmtResult {
    /// The assertions can all hold.
    Sat,
    /// The assertions contradict each other.
    Unsat,
    /// The solver could not decide.
    Unknown,
    /// There is no solver, or the query failed.
    Error(String),
}

/// What an [`SmtResult`] holds.
#[verifier::ext_equal]
pub enum SmtResultModel {
    Sat,
    Unsat,
    Unknown,
    Error(Seq<char>),
}

impl DeepView for SmtResult {
    type V = SmtResultModel;

    open spec fn deep_view(&self) -> SmtResultModel {
        match *self {
            SmtResult::Sat => SmtResultModel::Sat,
            SmtResult::Unsat => SmtResultModel::Unsat,
            SmtResult::Unknown => SmtResultModel::Unknown,
            SmtResult::Error(e) => SmtResultModel::Error(e@),
        }
    }
}

impl Clone for SmtResult {
    fn clone(&self) -> (r: Self)
        ensures
            r.deep_view() == self.deep_view(),
    {
        match self {
            SmtResult::Sat => SmtResult::Sat,
            SmtResult::Unsat => SmtResult::Unsat,
            SmtResult::Unknown => SmtResult::Unknown,
            SmtResult::Error(e) => SmtResult::Error(e.clone()),
        }
    }
}

/// What running a solver came to.
#[derive(Debug)]
pub enum SolverReply {
    /// There is no solver.
    Missing,
    /// It could not be started.
    NotStarted(String),
    /// The query could not be written to it.
    NotWritten(String),
    /// Its output could not be read.
    NotRead(String),
    /// It wrote this to its standard output and its standard error.
    Output { stdout: String, stderr: String },
}

/// What a solver's output says of a query.
pub open spec fn output_result(stdout: Seq<char>, stderr: Seq<char>) -> SmtResultModel {
    let result = text::trim(stdout);
    if result == "sat"@ {
        SmtResultModel::Sat
    } else if result == "unsat"@ {
        SmtResultModel::Unsat
    } else if result == "unknown"@ || result == "timeout"@ {
        SmtResultModel::Unknown
    } else if stderr.len() == 0 {
        SmtResultModel::Error("Unexpected z3 output: "@ + result)
    } else {
        SmtResultModel::Error("z3 error: "@ + text::trim(stderr))
    }
}

/// What a solver's reply says of a query.
pub open spec fn reply_result(reply: SolverReply) -> SmtResultModel {
    match reply {
        SolverReply::Missing => SmtResultModel::Error("z3 not available"@),
        SolverReply::NotStarted(e) => SmtResultModel::Error("Failed to spawn z3: "@ + e@),
        SolverReply::NotWritten(e) => SmtResultModel::Error("Failed to write to z3 stdin: "@ + e@),
        SolverReply::NotRead(e) => SmtResultModel::Error("Failed to read z3 output: "@ + e@),
        SolverReply::Output { stdout, stderr } => output_result(stdout@, stderr@),
    }
}

fn failure(what: &str, error: &str) -> (r: SmtResult)
    ensures
        r.deep_view() == SmtResultModel::Error(what@ + error@),
{
    let mut message = what.to_owned();
    message.append(error);
    SmtResult::Error(message)
}

/// Reads a solver's reply.
pub fn read_reply(reply: &SolverReply) -> (r: SmtResult)
    ensures
        r.deep_view() == reply_result(*reply),
{
    match reply {
        SolverReply::Missing => SmtResult::Error("z3 not available".to_owned()),
        SolverReply::NotStarted(e) => failure("Failed to spawn z3: ", e.as_str()),
        SolverReply::NotWritten(e) => failure("Failed to write to z3 stdin: ", e.as_str()),
        SolverReply::NotRead(e) => failure("Failed to read z3 output: ", e.as_str()),
        SolverReply::Output { stdout, stderr } => {
            let trimmed = text::trimmed(stdout.as_str());
            let result = trimmed.as_str();
            if text::same(result, "sat") {
                SmtResult::Sat
            } else if text::same(result, "unsat") {
                SmtResult::Unsat
            } else if text::same(result, "unknown") || text::same(result, "timeout") {
                SmtResult::Unknown
            } else if stderr.as_str().is_empty() {
                failure("Unexpected z3 output: ", result)
            } else {
                failure("z3 error: ", text::trimmed(stderr.as_str()).as_str())
            }
        },
    }
}

// ─── Queries ──────────────────────────────────────────────────────────────────

/// A query, built from declarations and assertions.
#[derive(Debug)]
pub struct SmtQuery {
    declarations: Vec<String>,
    assertions: Vec<String>,
}

/// What an [`SmtQuery`] holds.
#[verifier::ext_equal]
pub struct SmtQueryModel {
    pub declarations: Seq<Seq<char>>,
    pub assertions: Seq<Seq<char>>,
}

impl DeepView for SmtQuery {
    type V = SmtQueryModel;

    closed spec fn deep_view(&self) -> SmtQueryModel {
        SmtQueryModel {
            declarations: self.declarations.deep_view(),
            assertions: self.assertions.deep_view(),
        }
    }
}

impl Clone for SmtQuery {
    fn clone(&self) -> (r: Self)
        ensures
            r.deep_view() == self.deep_view(),
    {
        SmtQuery {
            declarations: self.declarations.duplicate(),
            assertions: self.assertions.duplicate(),
        }
    }
}

impl Default for SmtQuery {
    fn default() -> (r: Self)
        ensures
            r.deep_view() == empty_query(),
    {
        SmtQuery::new()
    }
}

pub open spec fn empty_query() -> SmtQueryModel {
    SmtQueryModel { declarations: Seq::empty(), assertions: Seq::empty() }
}

pub open spec fn declaration_text(name: Seq<char>, sort: Seq<char>) -> Seq<char> {
    "(declare-const "@ + name + " "@ + sort + ")"@
}

pub open spec fn assertion_text(expr: Seq<char>) -> Seq<char> {
    "(assert "@ + expr + ")"@
}

/// An operator applied to two expressions.
pub open spec fn binary_text(op: Seq<char>, a: Seq<char>, b: Seq<char>) -> Seq<char> {
    "("@ + op + " "@ + a + " "@ + b + ")"@
}

impl SmtQueryModel {
    pub open spec fn declare(self, name: Seq<char>, sort: Seq<char>) -> SmtQueryModel {
        SmtQueryModel {
            declarations: self.declarations.push(declaration_text(name, sort)),
            ..self
        }
    }

    pub open spec fn claim(self, expr: Seq<char>) -> SmtQueryModel {
        SmtQueryModel { assertions: self.assertions.push(assertion_text(expr)), ..self }
    }

    /// The query as a text: the declarations, the assertions, and the question whether they
    /// can all hold, line by line.
    pub open spec fn smtlib2(self) -> Seq<char> {
        "(set-logic ALL)\n"@ + all_lines(self.declarations, self.declarations.len() as int)
            + all_lines(self.assertions, self.assertions.len() as int) + "(check-sat)\n"@
    }
}

/// The first `k` texts, each on a line.
pub open spec fn all_lines(texts: Seq<Seq<char>>, k: int) -> Seq<char>
    decreases k,
{
    if k <= 0 || k > texts.len() {
        Seq::empty()
    } else {
        all_lines(texts, k - 1) + texts[k - 1] + "\n"@
    }
}

fn write_lines(texts: &Vec<String>) -> (r: String)
    ensures
        r@ == all_lines(texts.deep_view(), texts@.len() as int),
{
    let mut out: String = String::new();
    let mut i: usize = 0;
    while i < texts.len()
        invariant
            i <= texts@.len(),
            out@ == all_lines(texts.deep_view(), i as int),
        decreases texts@.len() - i,
    {
        assert(texts.deep_view()[i as int] == texts@[i as int]@);
        out.append(texts[i].as_str());
        out.append("\n");
        i += 1;
    }
    out
}

fn binary(op: &str, a: &str, b: &str) -> (r: String)
    ensures
        r@ == binary_text(op@, a@, b@),
{
    let mut out = "(".to_owned();
    out.append(op);
    out.append(" ");
    out.append(a);
    out.append(" ");
    out.append(b);
    out.append(")");
    out
}

impl SmtQuery {
    /// A query without declarations and assertions.
    pub fn new() -> (r: Self)
        ensures
            r.deep_view() == empty_query(),
    {
        let r = SmtQuery { declarations: Vec::new(), assertions: Vec::new() };
        assert(r.declarations.deep_view() =~= Seq::empty());
        assert(r.assertions.deep_view() =~= Seq::empty());
        r
    }

    /// Declares a constant of a sort.
    pub fn declare(&mut self, name: &str, sort: &str)
        ensures
            final(self).deep_view() == old(self).deep_view().declare(name@, sort@),
    {
        let mut line = "(declare-const ".to_owned();
        line.append(name);
        line.append(" ");
        line.append(sort);
        line.append(")");
        append_item(&mut self.declarations, line);
    }

    /// Declares an integer.
    pub fn declare_int(&mut self, name: &str)
        ensures
            final(self).deep_view() == old(self).deep_view().declare(name@, "Int"@),
    {
        self.declare(name, "Int")
    }

    /// Declares a boolean.
    pub fn declare_bool(&mut self, name: &str)
        ensures
            final(self).deep_view() == old(self).deep_view().declare(name@, "Bool"@),
    {
        self.declare(name, "Bool")
    }

    /// Asserts an expression.
    pub fn assert_raw(&mut self, smt_expr: &str)
        ensures
            final(self).deep_view() == old(self).deep_view().claim(smt_expr@),
    {
        let mut line = "(assert ".to_owned();
        line.append(smt_expr);
        line.append(")");
        append_item(&mut self.assertions, line);
    }

    /// Asserts that two expressions are equal.
    pub fn assert_eq(&mut self, a: &str, b: &str)
        ensures
            final(self).deep_view() == old(self).deep_view().claim(binary_text("="@, a@, b@)),
    {
        self.assert_raw(binary("=", a, b).as_str())
    }

    /// Asserts that an expression is at least another.
    pub fn assert_ge(&mut self, a: &str, b: &str)
        ensures
            final(self).deep_view() == old(self).deep_view().claim(binary_text(">="@, a@, b@)),
    {
        self.assert_raw(binary(">=", a, b).as_str())
    }

    /// Asserts that an expression is greater than another.
    pub fn assert_gt(&mut self, a: &str, b: &str)
        ensures
            final(self).deep_view() == old(self).deep_view().claim(binary_text(">"@, a@, b@)),
    {
        self.assert_raw(binary(">", a, b).as_str())
    }

    /// Asserts that two expressions differ.
    pub fn assert_ne(&mut self, a: &str, b: &str)
        ensures
            final(self).deep_view() == old(self).deep_view().claim(
                "(not "@ + binary_text("="@, a@, b@) + ")"@,
            ),
    {
        let mut expr = "(not ".to_owned();
        expr.append(binary("=", a, b).as_str());
        expr.append(")");
        self.assert_raw(expr.as_str())
    }

    /// Asserts that a premise implies a conclusion.
    pub fn assert_implies(&mut self, premise: &str, conclusion: &str)
        ensures
            final(self).deep_view() == old(self).deep_view().claim(
                binary_text("=>"@, premise@, conclusion@),
            ),
    {
        self.assert_raw(binary("=>", premise, conclusion).as_str())
    }

    /// The query in SMT-LIB2.
    pub fn to_smtlib2(&self) -> (r: String)
        ensures
            r@ == self.deep_view().smtlib2(),
    {
        let mut query = "(set-logic ALL)\n".to_owned();
        query.append(write_lines(&self.declarations).as_str());
        query.append(write_lines(&self.assertions).as_str());
        query.append("(check-sat)\n");
        query
    }
}

/// A name with every character that no word holds replaced by an underscore.
pub open spec fn smt_name(name: Seq<char>) -> Seq<char> {
    name.map_values(
        |c: char|
            if text::is_word(c) {
                c
            } else {
                '_'
            },
    )
}

/// Makes a name of SMT-LIB2 from any name.
pub fn sanitize_smt_name(name: &str) -> (r: String)
    ensures
        r@ == smt_name(name@),
{
    let chars = text::chars_of(name);
    let mut out: String = String::new();
    let mut i: usize = 0;
    assert(out@ =~= smt_name(name@).take(0));
    while i < chars.len()
        invariant
            i <= chars@.len(),
            chars@ == name@,
            out@ == smt_name(name@).take(i as int),
        decreases chars@.len() - i,
    {
        let c = chars[i];
        assert(smt_name(name@).take(i + 1) =~= smt_name(name@).take(i as int).push(
            smt_name(name@)[i as int],
        ));
        if text::word_char(c) {
            out.push(c);
        } else {
            out.push('_');
        }
        i += 1;
    }
    assert(smt_name(name@).take(chars@.len() as int) =~= smt_name(name@));
    out
}

// ─── State ownership ──────────────────────────────────────────────────────────

/// The first `k` claims, without those that repeat an earlier one.
pub open spec fn distinct_claims(claims: Seq<(Seq<char>, Seq<char>)>, k: int) -> Seq<
    (Seq<char>, Seq<char>),
>
    decreases k,
{
    if k <= 0 || k > claims.len() {
        Seq::empty()
    } else {
        let before = distinct_claims(claims, k - 1);
        if before.contains(claims[k - 1]) {
            before
        } else {
            before.push(claims[k - 1])
        }
    }
}

/// The boolean that says that a module owns a state.
pub open spec fn owner_name(claim: (Seq<char>, Seq<char>)) -> Seq<char> {
    "owns_"@ + smt_name(claim.0) + "_"@ + smt_name(claim.1)
}

/// What the query on the ownership of states asserts.
#[verifier::ext_equal]
pub enum Clause {
    /// A claim holds.
    Owned(Seq<char>),
    /// Two claims do not both hold.
    NotBoth(Seq<char>, Seq<char>),
}

impl Clause {
    pub open spec fn expr(self) -> Seq<char> {
        match self {
            Clause::Owned(name) => name,
            Clause::NotBoth(a, b) => "(not (and "@ + a + " "@ + b + "))"@,
        }
    }

    /// Whether it holds where exactly the names in `truths` are true.
    pub open spec fn holds(self, truths: Set<Seq<char>>) -> bool {
        match self {
            Clause::Owned(name) => truths.contains(name),
            Clause::NotBoth(a, b) => !(truths.contains(a) && truths.contains(b)),
        }
    }
}

/// Whether some choice of truths makes all clauses hold.
pub open spec fn satisfiable(clauses: Seq<Clause>) -> bool {
    exists|truths: Set<Seq<char>>| #[trigger] all_hold(clauses, truths)
}

pub open spec fn all_hold(clauses: Seq<Clause>, truths: Set<Seq<char>>) -> bool {
    forall|i: int| 0 <= i < clauses.len() ==> (#[trigger] clauses[i]).holds(truths)
}

/// That claim `i` excludes each claim before `k` and behind it on the same state.
pub open spec fn exclusions_of(claims: Seq<(Seq<char>, Seq<char>)>, i: int, k: int) -> Seq<Clause>
    decreases k,
{
    if i < 0 || k <= i + 1 || k > claims.len() {
        Seq::empty()
    } else {
        let before = exclusions_of(claims, i, k - 1);
        if claims[i].1 == claims[k - 1].1 {
            before.push(Clause::NotBoth(owner_name(claims[i]), owner_name(claims[k - 1])))
        } else {
            before
        }
    }
}

/// What the first `k` claims exclude.
pub open spec fn exclusions(claims: Seq<(Seq<char>, Seq<char>)>, k: int) -> Seq<Clause>
    decreases k,
{
    if k <= 0 || k > claims.len() {
        Seq::empty()
    } else {
        exclusions(claims, k - 1) + exclusions_of(claims, k - 1, claims.len() as int)
    }
}

/// What is asserted of claims: that each holds, and that no two on the same state do.
pub open spec fn ownership_clauses(claims: Seq<(Seq<char>, Seq<char>)>) -> Seq<Clause> {
    let distinct = distinct_claims(claims, claims.len() as int);
    distinct.map_values(|c: (Seq<char>, Seq<char>)| Clause::Owned(owner_name(c))) + exclusions(
        distinct,
        distinct.len() as int,
    )
}

/// The names of the first `k` claims, each once.
pub open spec fn owner_names(claims: Seq<(Seq<char>, Seq<char>)>, k: int) -> Seq<Seq<char>>
    decreases k,
{
    if k <= 0 || k > claims.len() {
        Seq::empty()
    } else {
        crate::data::with_name(owner_names(claims, k - 1), owner_name(claims[k - 1]))
    }
}

/// The query on the ownership of states.
pub open spec fn ownership_query(claims: Seq<(Seq<char>, Seq<char>)>) -> SmtQueryModel {
    let distinct = distinct_claims(claims, claims.len() as int);
    SmtQueryModel {
        declarations: owner_names(distinct, distinct.len() as int).map_values(
            |name: Seq<char>| declaration_text(name, "Bool"@),
        ),
        assertions: ownership_clauses(claims).map_values(|c: Clause| assertion_text(c.expr())),
    }
}

fn list_distinct(claims: &[(String, String)]) -> (r: Vec<(String, String)>)
    ensures
        r.deep_view() == distinct_claims(claims.deep_view(), claims@.len() as int),
{
    let mut distinct: Vec<(String, String)> = Vec::new();
    assert(distinct.deep_view() =~= Seq::empty());
    let mut i: usize = 0;
    while i < claims.len()
        invariant
            i <= claims@.len(),
            distinct.deep_view() == distinct_claims(claims.deep_view(), i as int),
        decreases claims@.len() - i,
    {
        assert(claims.deep_view()[i as int] == claims@[i as int].deep_view());
        if !list_contains(distinct.as_slice(), &claims[i]) {
            append_item(&mut distinct, claims[i].duplicate());
        }
        i += 1;
    }
    distinct
}

fn owner(claim: &(String, String)) -> (r: String)
    ensures
        r@ == owner_name(claim.deep_view()),
{
    let mut name = "owns_".to_owned();
    name.append(sanitize_smt_name(claim.0.as_str()).as_str());
    name.append("_");
    name.append(sanitize_smt_name(claim.1.as_str()).as_str());
    name
}

fn declare_owners(query: &mut SmtQuery, claims: &Vec<(String, String)>)
    ensures
        final(query).deep_view() == (SmtQueryModel {
            declarations: old(query).deep_view().declarations + owner_names(
                claims.deep_view(),
                claims@.len() as int,
            ).map_values(|name: Seq<char>| declaration_text(name, "Bool"@)),
            ..old(query).deep_view()
        }),
{
    let mut names: Vec<String> = Vec::new();
    assert(names.deep_view() =~= Seq::empty());
    let mut i: usize = 0;
    while i < claims.len()
        invariant
            i <= claims@.len(),
            names.deep_view() == owner_names(claims.deep_view(), i as int),
        decreases claims@.len() - i,
    {
        assert(claims.deep_view()[i as int] == claims@[i as int].deep_view());
        let name = owner(&claims[i]);
        add_name(&mut names, &name);
        i += 1;
    }
    let ghost texts = names.deep_view().map_values(
        |name: Seq<char>| declaration_text(name, "Bool"@),
    );
    let ghost start = query.deep_view();
    let mut j: usize = 0;
    assert(start.declarations + texts.take(0) =~= start.declarations);
    while j < names.len()
        invariant
            j <= names@.len(),
            texts == names.deep_view().map_values(
                |name: Seq<char>| declaration_text(name, "Bool"@),
            ),
            query.deep_view() == (SmtQueryModel {
                declarations: start.declarations + texts.take(j as int),
                ..start
            }),
        decreases names@.len() - j,
    {
        assert(names.deep_view()[j as int] == names@[j as int]@);
        query.declare_bool(names[j].as_str());
        assert(start.declarations + texts.take(j + 1) =~= (start.declarations + texts.take(
            j as int,
        )).push(texts[j as int]));
        j += 1;
    }
    assert(texts.take(texts.len() as int) =~= texts);
}

/// The texts of clauses.
pub open spec fn clause_texts(clauses: Seq<Clause>) -> Seq<Seq<char>> {
    clauses.map_values(|c: Clause| assertion_text(c.expr()))
}

/// A query with the texts of more clauses.
pub open spec fn with_clauses(query: SmtQueryModel, clauses: Seq<Clause>) -> SmtQueryModel {
    SmtQueryModel { assertions: query.assertions + clause_texts(clauses), ..query }
}

fn assert_owners(query: &mut SmtQuery, claims: &Vec<(String, String)>)
    ensures
        final(query).deep_view() == with_clauses(
            old(query).deep_view(),
            claims.deep_view().map_values(
                |c: (Seq<char>, Seq<char>)| Clause::Owned(owner_name(c)),
            ),
        ),
{
    let ghost start = query.deep_view();
    let ghost all = claims.deep_view().map_values(
        |c: (Seq<char>, Seq<char>)| Clause::Owned(owner_name(c)),
    );
    assert(with_clauses(start, all.take(0)) =~= start);
    let mut i: usize = 0;
    while i < claims.len()
        invariant
            i <= claims@.len(),
            all == claims.deep_view().map_values(
                |c: (Seq<char>, Seq<char>)| Clause::Owned(owner_name(c)),
            ),
            query.deep_view() == with_clauses(start, all.take(i as int)),
        decreases claims@.len() - i,
    {
        assert(claims.deep_view()[i as int] == claims@[i as int].deep_view());
        query.assert_raw(owner(&claims[i]).as_str());
        proof {
            assert(all.take(i + 1) =~= all.take(i as int).push(all[i as int]));
            lemma_with_clause(start, all.take(i as int), all[i as int]);
        }
        i += 1;
    }
    assert(all.take(all.len() as int) =~= all);
}

proof fn lemma_with_clause(query: SmtQueryModel, clauses: Seq<Clause>, clause: Clause)
    ensures
        with_clauses(query, clauses.push(clause)) == with_clauses(query, clauses).claim(
            clause.expr(),
        ),
{
    assert(query.assertions + clause_texts(clauses.push(clause)) =~= (query.assertions
        + clause_texts(clauses)).push(assertion_text(clause.expr())));
}

fn assert_exclusions_of(query: &mut SmtQuery, claims: &Vec<(String, String)>, i: usize)
    requires
        i < claims@.len(),
    ensures
        final(query).deep_view() == with_clauses(
            old(query).deep_view(),
            exclusions_of(claims.deep_view(), i as int, claims@.len() as int),
        ),
{
    let ghost start = query.deep_view();
    let ghost model = claims.deep_view();
    let first = owner(&claims[i]);
    let length: usize = claims.len();
    let mut j: usize = i + 1;
    assert(with_clauses(start, Seq::empty()) =~= start);
    assert(model[i as int] == claims@[i as int].deep_view());
    while j < length
        invariant
            i < j <= length == claims@.len(),
            model == claims.deep_view(),
            model[i as int] == claims@[i as int].deep_view(),
            first@ == owner_name(model[i as int]),
            query.deep_view() == with_clauses(start, exclusions_of(model, i as int, j as int)),
        decreases length - j,
    {
        assert(model[j as int] == claims@[j as int].deep_view());
        if claims[i].1.same(&claims[j].1) {
            let mut expr = "(not (and ".to_owned();
            expr.append(first.as_str());
            expr.append(" ");
            expr.append(owner(&claims[j]).as_str());
            expr.append("))");
            query.assert_raw(expr.as_str());
            proof {
                lemma_with_clause(
                    start,
                    exclusions_of(model, i as int, j as int),
                    Clause::NotBoth(first@, owner_name(model[j as int])),
                );
            }
        }
        j += 1;
    }
}

fn assert_exclusions(query: &mut SmtQuery, claims: &Vec<(String, String)>)
    ensures
        final(query).deep_view() == with_clauses(
            old(query).deep_view(),
            exclusions(claims.deep_view(), claims@.len() as int),
        ),
{
    let ghost start = query.deep_view();
    let ghost model = claims.deep_view();
    assert(with_clauses(start, Seq::empty()) =~= start);
    let mut i: usize = 0;
    while i < claims.len()
        invariant
            i <= claims@.len(),
            model == claims.deep_view(),
            query.deep_view() == with_clauses(start, exclusions(model, i as int)),
        decreases claims@.len() - i,
    {
        assert_exclusions_of(query, claims, i);
        proof {
            lemma_more_clauses(
                start,
                exclusions(model, i as int),
                exclusions_of(model, i as int, model.len() as int),
            );
        }
        i += 1;
    }
}

proof fn lemma_more_clauses(query: SmtQueryModel, a: Seq<Clause>, b: Seq<Clause>)
    ensures
        with_clauses(with_clauses(query, a), b) == with_clauses(query, a + b),
{
    assert(query.assertions + clause_texts(a) + clause_texts(b) =~= query.assertions
        + clause_texts(a + b));
}

/// Builds the query on the ownership of states from claims, each a module and a state.
pub fn state_ownership_query(claims: &[(String, String)]) -> (r: SmtQuery)
    ensures
        r.deep_view() == ownership_query(claims.deep_view()),
{
    let distinct = list_distinct(claims);
    let ghost model = distinct.deep_view();
    let mut query = SmtQuery::new();
    declare_owners(&mut query, &distinct);
    let ghost declared = query.deep_view();
    assert_owners(&mut query, &distinct);
    assert_exclusions(&mut query, &distinct);
    proof {
        let owned = model.map_values(|c: (Seq<char>, Seq<char>)| Clause::Owned(owner_name(c)));
        let excluded = exclusions(model, model.len() as int);
        lemma_more_clauses(declared, owned, excluded);
        assert(query.deep_view().assertions =~= clause_texts(owned + excluded));
        assert(query.deep_view().declarations =~= ownership_query(
            claims.deep_view(),
        ).declarations);
    }
    query
}

/// What a solver's result on the ownership of states means.
pub open spec fn ownership_outcome(result: SmtResultModel) -> Result<(), Seq<char>> {
    match result {
        SmtResultModel::Sat => Ok(()),
        SmtResultModel::Unsat => Err("State ownership conflict detected (SMT-verified)"@),
        SmtResultModel::Unknown => Err("SMT solver could not decide"@),
        SmtResultModel::Error(e) => Err("SMT error: "@ + e),
    }
}

/// What a solver's reply on the ownership of states means.
pub open spec fn ownership_conclusion(reply: SolverReply) -> Result<(), Seq<char>> {
    match reply {
        SolverReply::Missing => Err("z3 not available"@),
        _ => ownership_outcome(reply_result(reply)),
    }
}

/// Decides from a solver's reply to the query whether the claims on states are consistent.
pub fn check_state_ownership_consistency(reply: &SolverReply) -> (r: Result<(), String>)
    ensures
        result_view(r) == ownership_conclusion(*reply),
{
    match reply {
        SolverReply::Missing => return Err("z3 not available".to_owned()),
        _ => {},
    }
    match read_reply(reply) {
        SmtResult::Sat => Ok(()),
        SmtResult::Unsat => Err("State ownership conflict detected (SMT-verified)".to_owned()),
        SmtResult::Unknown => Err("SMT solver could not decide".to_owned()),
        SmtResult::Error(e) => {
            let mut message = "SMT error: ".to_owned();
            message.append(e.as_str());
            Err(message)
        },
    }
}

// ─── Numeric constraints ──────────────────────────────────────────────────────

/// A variable, with the bounds within which it lies.
#[derive(Debug)]
pub struct Bounds {
    pub name: String,
    pub lower: Option<i64>,
    pub upper: Option<i64>,
}

/// What a [`Bounds`] holds.
#[verifier::ext_equal]
pub struct BoundsModel {
    pub name: Seq<char>,
    pub lower: Option<i64>,
    pub upper: Option<i64>,
}

impl DeepView for Bounds {
    type V = BoundsModel;

    open spec fn deep_view(&self) -> BoundsModel {
        BoundsModel { name: self.name@, lower: self.lower, upper: self.upper }
    }
}

/// A query with one more constraint. A name is declared only once.
pub open spec fn with_bounds(
    query: SmtQueryModel,
    known: Seq<Seq<char>>,
    b: BoundsModel,
) -> SmtQueryModel {
    let name = smt_name(b.name);
    let declared = if known.contains(name) {
        query
    } else {
        query.declare(name, "Int"@)
    };
    let low = match b.lower {
        Some(n) => declared.claim(binary_text(">="@, name, text::integer(n as int))),
        None => declared,
    };
    match b.upper {
        Some(n) => low.claim(binary_text("<="@, name, text::integer(n as int))),
        None => low,
    }
}

/// The names, as SMT-LIB2 has them, of the first `k` constraints.
pub open spec fn bounded_names(constraints: Seq<BoundsModel>, k: int) -> Seq<Seq<char>> {
    constraints.take(k).map_values(|b: BoundsModel| smt_name(b.name))
}

/// The query on the first `k` constraints.
pub open spec fn bounds_query(constraints: Seq<BoundsModel>, k: int) -> SmtQueryModel
    decreases k,
{
    if k <= 0 || k > constraints.len() {
        empty_query()
    } else {
        with_bounds(
            bounds_query(constraints, k - 1),
            bounded_names(constraints, k - 1),
            constraints[k - 1],
        )
    }
}

/// Builds the query whether variables can all lie within their bounds.
pub fn numeric_constraints_query(constraints: &[Bounds]) -> (r: SmtQuery)
    ensures
        r.deep_view() == bounds_query(constraints.deep_view(), constraints@.len() as int),
{
    let mut query = SmtQuery::new();
    let mut known: Vec<String> = Vec::new();
    let ghost model = constraints.deep_view();
    assert(known.deep_view() =~= bounded_names(model, 0));
    let mut i: usize = 0;
    while i < constraints.len()
        invariant
            i <= constraints@.len(),
            model == constraints.deep_view(),
            known.deep_view() == bounded_names(model, i as int),
            query.deep_view() == bounds_query(model, i as int),
        decreases constraints@.len() - i,
    {
        let b = &constraints[i];
        assert(model[i as int] == b.deep_view());
        let name = sanitize_smt_name(b.name.as_str());
        if !list_contains(known.as_slice(), &name) {
            query.declare_int(name.as_str());
        }
        match b.lower {
            Some(n) => query.assert_ge(name.as_str(), text::integer_string(n).as_str()),
            None => {},
        }
        match b.upper {
            Some(n) => query.assert_raw(
                binary("<=", name.as_str(), text::integer_string(n).as_str()).as_str(),
            ),
            None => {},
        }
        append_item(&mut known, name);
        assert(bounded_names(model, i + 1) =~= bounded_names(model, i as int).push(
            smt_name(model[i as int].name),
        ));
        i += 1;
    }
    query
}

// ─── Implications ─────────────────────────────────────────────────────────────

/// The names, as SMT-LIB2 has them, of the first `k` declarations.
pub open spec fn declared_names(declarations: Seq<(Seq<char>, Seq<char>)>, k: int) -> Seq<
    Seq<char>,
> {
    declarations.take(k).map_values(|d: (Seq<char>, Seq<char>)| smt_name(d.0))
}

/// A query with the declarations of the first `k` names, each once, with its first sort.
pub open spec fn sorted_names(declarations: Seq<(Seq<char>, Seq<char>)>, k: int) -> SmtQueryModel
    decreases k,
{
    if k <= 0 || k > declarations.len() {
        empty_query()
    } else {
        let before = sorted_names(declarations, k - 1);
        let name = smt_name(declarations[k - 1].0);
        if declared_names(declarations, k - 1).contains(name) {
            before
        } else {
            before.declare(name, declarations[k - 1].1)
        }
    }
}

/// A query that also asserts the first `k` premises.
pub open spec fn with_premises(query: SmtQueryModel, premises: Seq<Seq<char>>, k: int) ->
    SmtQueryModel
    decreases k,
{
    if k <= 0 || k > premises.len() {
        query
    } else {
        with_premises(query, premises, k - 1).claim(premises[k - 1])
    }
}

/// Builds the query whether premises can hold without the conclusion. The implication is
/// valid where they cannot: where the query is unsatisfiable.
pub fn implication_query(
    premises: &[String],
    conclusion: &str,
    declarations: &[(String, String)],
) -> (r: SmtQuery)
    ensures
        r.deep_view() == with_premises(
            sorted_names(declarations.deep_view(), declarations@.len() as int),
            premises.deep_view(),
            premises@.len() as int,
        ).claim("(not "@ + conclusion@ + ")"@),
{
    let mut query = SmtQuery::new();
    let mut known: Vec<String> = Vec::new();
    let ghost model = declarations.deep_view();
    assert(known.deep_view() =~= declared_names(model, 0));
    let mut i: usize = 0;
    while i < declarations.len()
        invariant
            i <= declarations@.len(),
            model == declarations.deep_view(),
            known.deep_view() == declared_names(model, i as int),
            query.deep_view() == sorted_names(model, i as int),
        decreases declarations@.len() - i,
    {
        assert(model[i as int] == declarations@[i as int].deep_view());
        let name = sanitize_smt_name(declarations[i].0.as_str());
        if !list_contains(known.as_slice(), &name) {
            query.declare(name.as_str(), declarations[i].1.as_str());
        }
        append_item(&mut known, name);
        assert(declared_names(model, i + 1) =~= declared_names(model, i as int).push(
            smt_name(model[i as int].0),
        ));
        i += 1;
    }
    let ghost start = query.deep_view();
    let mut j: usize = 0;
    while j < premises.len()
        invariant
            j <= premises@.len(),
            query.deep_view() == with_premises(start, premises.deep_view(), j as int),
        decreases premises@.len() - j,
    {
        assert(premises.deep_view()[j as int] == premises@[j as int]@);
        query.assert_raw(premises[j].as_str());
        j += 1;
    }
    let mut negated = "(not ".to_owned();
    negated.append(conclusion);
    negated.append(")");
    query.assert_raw(negated.as_str());
    query
}

// ─── Laws ─────────────────────────────────────────────────────────────────────

/// A name of SMT-LIB2 holds only characters of words.
pub proof fn smt_names_are_words(name: Seq<char>, i: int)
    requires
        0 <= i < smt_name(name).len(),
    ensures
        text::is_word(smt_name(name)[i]),
{
}

/// A name of SMT-LIB2 stays as it is.
pub proof fn smt_names_stay(name: Seq<char>)
    ensures
        smt_name(smt_name(name)) == smt_name(name),
{
    assert(smt_name(smt_name(name)) =~= smt_name(name));
}

/// Whether no state is claimed by two different modules.
pub open spec fn ownership_consistent(claims: Seq<(Seq<char>, Seq<char>)>) -> bool {
    forall|i: int, j: int|
        0 <= i < claims.len() && 0 <= j < claims.len() && #[trigger] claims[i].1
            == #[trigger] claims[j].1 ==> claims[i].0 == claims[j].0
}

/// The query on the ownership of states can be satisfied exactly where no state is claimed by
/// two different modules.
pub proof fn ownership_query_decides(claims: Seq<(Seq<char>, Seq<char>)>)
    ensures
        satisfiable(ownership_clauses(claims)) <==> ownership_consistent(claims),
{
    let n = claims.len() as int;
    let distinct = distinct_claims(claims, n);
    let owned = distinct.map_values(|c: (Seq<char>, Seq<char>)| Clause::Owned(owner_name(c)));
    let excluded = exclusions(distinct, distinct.len() as int);
    let clauses = ownership_clauses(claims);
    assert(clauses == owned + excluded);
    lemma_distinct_claims(claims, n);
    if ownership_consistent(claims) {
        assert forall|i: int, j: int| 0 <= i < j < distinct.len() implies distinct[i].1
            != distinct[j].1 by {
            let a = choose|a: int| 0 <= a < n && claims[a] == distinct[i];
            let b = choose|b: int| 0 <= b < n && claims[b] == distinct[j];
            assert(claims[a] == distinct[i] && claims[b] == distinct[j]);
        }
        lemma_no_exclusions(distinct, distinct.len() as int);
        let all = Set::<Seq<char>>::full();
        assert forall|i: int| 0 <= i < clauses.len() implies (#[trigger] clauses[i]).holds(
            all,
        ) by {
            assert(clauses[i] == owned[i]);
        }
        assert(all_hold(clauses, all));
    } else {
        let (i, j) = choose|i: int, j: int|
            0 <= i < n && 0 <= j < n && #[trigger] claims[i].1 == #[trigger] claims[j].1
                && claims[i].0 != claims[j].0;
        let a = choose|a: int| 0 <= a < distinct.len() && distinct[a] == claims[i];
        let b = choose|b: int| 0 <= b < distinct.len() && distinct[b] == claims[j];
        assert(distinct.contains(claims[i]) && distinct.contains(claims[j]));
        assert(a != b);
        let low = if a < b {
            a
        } else {
            b
        };
        let high = if a < b {
            b
        } else {
            a
        };
        lemma_excluded(distinct, distinct.len() as int, low, high);
        let clause = Clause::NotBoth(owner_name(distinct[low]), owner_name(distinct[high]));
        let at = choose|at: int| 0 <= at < excluded.len() && excluded[at] == clause;
        assert forall|truths: Set<Seq<char>>| !#[trigger] all_hold(clauses, truths) by {
            if all_hold(clauses, truths) {
                assert(clauses[low] == owned[low]);
                assert(clauses[high] == owned[high]);
                assert(clauses[owned.len() + at] == clause);
            }
        }
    }
}

proof fn lemma_distinct_claims(claims: Seq<(Seq<char>, Seq<char>)>, k: int)
    requires
        0 <= k <= claims.len(),
    ensures
        forall|i: int, j: int|
            0 <= i < j < distinct_claims(claims, k).len() ==> distinct_claims(claims, k)[i]
                != distinct_claims(claims, k)[j],
        forall|i: int|
            0 <= i < k ==> distinct_claims(claims, k).contains(#[trigger] claims[i]),
        forall|i: int|
            0 <= i < distinct_claims(claims, k).len() ==> exists|a: int|
                0 <= a < k && claims[a] == #[trigger] distinct_claims(claims, k)[i],
    decreases k,
{
    if k > 0 {
        lemma_distinct_claims(claims, k - 1);
        let before = distinct_claims(claims, k - 1);
        let now = distinct_claims(claims, k);
        assert forall|i: int| 0 <= i < k implies now.contains(#[trigger] claims[i]) by {
            if i < k - 1 {
                let a = choose|a: int| 0 <= a < before.len() && before[a] == claims[i];
                assert(before.contains(claims[i]));
                assert(now[a] == claims[i]);
            } else if !before.contains(claims[k - 1]) {
                assert(now[before.len() as int] == claims[k - 1]);
            }
        }
        assert forall|i: int| 0 <= i < now.len() implies exists|a: int|
            0 <= a < k && claims[a] == #[trigger] now[i] by {
            if i < before.len() {
                assert(now[i] == before[i]);
                let a = choose|a: int| 0 <= a < k - 1 && claims[a] == before[i];
                assert(claims[a] == now[i]);
            } else {
                assert(claims[k - 1] == now[i]);
            }
        }
        assert forall|i: int, j: int| 0 <= i < j < now.len() implies now[i] != now[j] by {
            assert(now[i] == before[i]);
            if j < before.len() {
                assert(now[j] == before[j]);
            } else {
                assert(before.contains(before[i]));
            }
        }
    }
}

proof fn lemma_no_exclusions_of(claims: Seq<(Seq<char>, Seq<char>)>, i: int, k: int)
    requires
        0 <= i < claims.len(),
        forall|i: int, j: int| 0 <= i < j < claims.len() ==> claims[i].1 != claims[j].1,
    ensures
        exclusions_of(claims, i, k).len() == 0,
    decreases k,
{
    if i + 1 < k <= claims.len() {
        lemma_no_exclusions_of(claims, i, k - 1);
    }
}

proof fn lemma_no_exclusions(claims: Seq<(Seq<char>, Seq<char>)>, k: int)
    requires
        0 <= k <= claims.len(),
        forall|i: int, j: int| 0 <= i < j < claims.len() ==> claims[i].1 != claims[j].1,
    ensures
        exclusions(claims, k).len() == 0,
    decreases k,
{
    if k > 0 {
        lemma_no_exclusions(claims, k - 1);
        lemma_no_exclusions_of(claims, k - 1, claims.len() as int);
    }
}

proof fn lemma_excluded_of(claims: Seq<(Seq<char>, Seq<char>)>, i: int, k: int, j: int)
    requires
        0 <= i < j < k <= claims.len(),
        claims[i].1 == claims[j].1,
    ensures
        exclusions_of(claims, i, k).contains(
            Clause::NotBoth(owner_name(claims[i]), owner_name(claims[j])),
        ),
    decreases k,
{
    let clause = Clause::NotBoth(owner_name(claims[i]), owner_name(claims[j]));
    let before = exclusions_of(claims, i, k - 1);
    let now = exclusions_of(claims, i, k);
    if j == k - 1 {
        assert(now[before.len() as int] == clause);
    } else {
        lemma_excluded_of(claims, i, k - 1, j);
        let at = choose|at: int| 0 <= at < before.len() && before[at] == clause;
        assert(now[at] == clause);
    }
}

proof fn lemma_excluded(claims: Seq<(Seq<char>, Seq<char>)>, k: int, i: int, j: int)
    requires
        0 <= i < k <= claims.len(),
        i < j < claims.len(),
        claims[i].1 == claims[j].1,
    ensures
        exclusions(claims, k).contains(
            Clause::NotBoth(owner_name(claims[i]), owner_name(claims[j])),
        ),
    decreases k,
{
    let clause = Clause::NotBoth(owner_name(claims[i]), owner_name(claims[j]));
    let before = exclusions(claims, k - 1);
    let row = exclusions_of(claims, k - 1, claims.len() as int);
    let now = exclusions(claims, k);
    if i == k - 1 {
        lemma_excluded_of(claims, i, claims.len() as int, j);
        let at = choose|at: int| 0 <= at < row.len() && row[at] == clause;
        assert(now[before.len() + at] == clause);
    } else {
        lemma_excluded(claims, k - 1, i, j);
        let at = choose|at: int| 0 <= at < before.len() && before[at] == clause;
        assert(now[at] == clause);
    }
}

} // verus!
