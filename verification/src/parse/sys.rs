//! System commands, as they are read out of a parse tree.
//!
//! The tree is the plain form of what a grammar engine hands over: each node
//! holds the rule that matched, the text, its place and the nodes below it.

use vstd::prelude::*;

verus! {

/// Where a piece of source text stands: the offset of its first byte, and its
/// length.
#[derive(Clone, Copy, Debug, PartialEq, Eq, Structural)]
pub struct SourceSpan(pub usize, pub usize);

/// A name, with the place where it was written.
#[derive(Debug, PartialEq, Eq)]
pub struct Symbol {
    pub name: String,
    pub span: SourceSpan,
}

/// The grammar rules that a system command is made of.
#[derive(Clone, Copy, Debug, PartialEq, Eq, Structural)]
pub enum Rule {
    CompactOp,
    RunningOp,
    KillOp,
    ListRelationsOp,
    RemoveRelationsOp,
    ListRelationOp,
    RenameRelationsOp,
    TriggerRelationShowOp,
    TriggerRelationOp,
    TriggerPut,
    TriggerRm,
    TriggerReplace,
    /// Any rule that is not one of the above.
    Other,
}

/// A node of a parse tree: the rule that matched, the text that it matched,
/// where that text stands, and the nodes below it, in order.
#[derive(Debug, PartialEq, Eq)]
pub struct Pair {
    pub rule: Rule,
    pub text: String,
    pub span: SourceSpan,
    pub inner: Vec<Pair>,
}

/// A system command.
#[derive(Debug, PartialEq, Eq)]
pub enum SysOp {
    Compact,
    ListRelation(Symbol),
    ListRelations,
    ListRunning,
    KillRunning(u64),
    RemoveRelation(Vec<Symbol>),
    RenameRelation(Vec<(Symbol, Symbol)>),
    ShowTrigger(Symbol),
    /// The relation, then the scripts to run on put, on remove and on replace.
    SetTriggers(Symbol, Vec<String>, Vec<String>, Vec<String>),
}

/// What a [`SysOp`] stands for.
pub enum SysOpView {
    Compact,
    ListRelation(Symbol),
    ListRelations,
    ListRunning,
    KillRunning(u64),
    RemoveRelation(Seq<Symbol>),
    RenameRelation(Seq<(Symbol, Symbol)>),
    ShowTrigger(Symbol),
    SetTriggers(Symbol, Seq<String>, Seq<String>, Seq<String>),
}

impl View for SysOp {
    type V = SysOpView;

    open spec fn view(&self) -> SysOpView {
        match self {
            SysOp::Compact => SysOpView::Compact,
            SysOp::ListRelation(rel) => SysOpView::ListRelation(*rel),
            SysOp::ListRelations => SysOpView::ListRelations,
            SysOp::ListRunning => SysOpView::ListRunning,
            SysOp::KillRunning(id) => SysOpView::KillRunning(*id),
            SysOp::RemoveRelation(rels) => SysOpView::RemoveRelation(rels@),
            SysOp::RenameRelation(renames) => SysOpView::RenameRelation(renames@),
            SysOp::ShowTrigger(rel) => SysOpView::ShowTrigger(*rel),
            SysOp::SetTriggers(rel, puts, rms, replaces) => SysOpView::SetTriggers(
                *rel,
                puts@,
                rms@,
                replaces@,
            ),
        }
    }
}

/// The text of a process identifier that is no number, and where it stands.
#[derive(Debug, PartialEq, Eq)]
pub struct ProcessIdError(pub String, pub SourceSpan);

/// Whether `c` is one of the ten decimal digits.
pub open spec fn is_digit(c: char) -> bool {
    '0' <= c <= '9'
}

/// The number that the digits `digits` write in base ten.
pub open spec fn digits_value(digits: Seq<char>) -> nat
    decreases digits.len(),
{
    if digits.len() == 0 {
        0
    } else {
        digits_value(digits.drop_last()) * 10 + (digits.last() as nat - '0' as nat) as nat
    }
}

/// Whether every one of `digits` is a decimal digit.
pub open spec fn all_digits(digits: Seq<char>) -> bool {
    forall|i: int| 0 <= i < digits.len() ==> is_digit(#[trigger] digits[i])
}

/// What stands behind the sign: `text` without a leading `+`.
pub open spec fn unsigned_part(text: Seq<char>) -> Seq<char> {
    if text.len() > 0 && text[0] == '+' {
        text.drop_first()
    } else {
        text
    }
}

/// The number that `text` writes: an optional `+`, then one decimal digit or
/// more and nothing else, for a number that fits 64 bits. Any other text
/// writes none.
pub open spec fn decimal_of(text: Seq<char>) -> Option<u64> {
    let digits = unsigned_part(text);
    if digits.len() > 0 && all_digits(digits) && digits_value(digits) <= u64::MAX {
        Some(digits_value(digits) as u64)
    } else {
        None
    }
}

/// A number does not get smaller when digits are written behind it.
pub proof fn lemma_digits_value_grows(digits: Seq<char>, n: int)
    requires
        0 <= n <= digits.len(),
        all_digits(digits),
    ensures
        digits_value(digits.take(n)) <= digits_value(digits),
    decreases digits.len() - n,
{
    if n < digits.len() {
        lemma_digits_value_grows(digits, n + 1);
        assert(digits.take(n + 1).drop_last() =~= digits.take(n));
        assert(is_digit(digits.take(n + 1).last()));
    } else {
        assert(digits.take(n) =~= digits);
    }
}

/// Reads a decimal number.
pub fn parse_decimal(text: &String) -> (r: Option<u64>)
    ensures
        r == decimal_of(text@),
{
    let ghost digits = unsigned_part(text@);
    let ghost mut seen: int = 0;
    let mut value: u64 = 0;
    let mut any = false;
    let mut first = true;
    for c in it: text.as_str().chars()
        invariant
            it.seq() == text@,
            digits == unsigned_part(text@),
            first == (it.index() == 0),
            any == (seen > 0),
            0 <= seen <= it.index(),
            it.index() > 0 ==> seen == it.index() - (text@.len() - digits.len()),
            forall|j: int| 0 <= j < seen ==> is_digit(#[trigger] digits[j]),
            value == digits_value(digits.take(seen)),
    {
        if first && c == '+' {
            first = false;
        } else {
            first = false;
            assert(c == digits[seen]);
            if c < '0' || c > '9' {
                return None;
            }
            let d: u64 = (c as u32 - '0' as u32) as u64;
            proof {
                assert(digits.take(seen + 1).drop_last() =~= digits.take(seen));
                assert(digits.take(seen + 1).last() == c);
                if all_digits(digits) {
                    lemma_digits_value_grows(digits, seen + 1);
                }
            }
            let tenfold = match value.checked_mul(10) {
                Some(t) => t,
                None => {
                    return None;
                },
            };
            value =
            match tenfold.checked_add(d) {
                Some(sum) => sum,
                None => {
                    return None;
                },
            };
            any = true;
            proof {
                seen = seen + 1;
            }
        }
    }
    assert(digits.take(seen) =~= digits);
    if any {
        Some(value)
    } else {
        None
    }
}

/// The symbol that a node writes: its text, where it stands.
pub open spec fn symbol_of(node: Pair) -> Symbol {
    Symbol { name: node.text, span: node.span }
}

/// The symbols that `nodes` write, in order.
pub open spec fn symbols_of(nodes: Seq<Pair>) -> Seq<Symbol> {
    Seq::new(nodes.len(), |i: int| symbol_of(nodes[i]))
}

/// The old and the new name that each of `nodes` holds as its first two
/// nodes, in order.
pub open spec fn renames_of(nodes: Seq<Pair>) -> Seq<(Symbol, Symbol)> {
    Seq::new(nodes.len(), |i: int| (symbol_of(nodes[i].inner[0]), symbol_of(nodes[i].inner[1])))
}

/// The scripts of those of `clauses` that are of the kind `kind`, in order. A
/// clause holds its kind as its first node and its script as its second.
pub open spec fn scripts_of(clauses: Seq<Pair>, kind: Rule) -> Seq<String>
    decreases clauses.len(),
{
    if clauses.len() == 0 {
        Seq::empty()
    } else {
        let before = scripts_of(clauses.drop_last(), kind);
        if clauses.last().inner[0].rule == kind {
            before.push(clauses.last().inner[1].text)
        } else {
            before
        }
    }
}

/// Whether `clause` is a clause of a trigger command: a kind, which is put,
/// remove or replace, and a script.
pub open spec fn is_trigger_clause(clause: Pair) -> bool {
    &&& clause.inner.len() >= 2
    &&& (clause.inner[0].rule == Rule::TriggerPut || clause.inner[0].rule == Rule::TriggerRm
        || clause.inner[0].rule == Rule::TriggerReplace)
}

/// Whether `node` has the shape of a system command: one of the nine
/// commands, with the nodes below it that the command reads.
pub open spec fn is_sys_command(node: Pair) -> bool {
    match node.rule {
        Rule::CompactOp | Rule::RunningOp | Rule::ListRelationsOp | Rule::RemoveRelationsOp => true,
        Rule::KillOp | Rule::ListRelationOp | Rule::TriggerRelationShowOp => node.inner.len() >= 1,
        Rule::RenameRelationsOp => forall|i: int|
            0 <= i < node.inner.len() ==> (#[trigger] node.inner[i]).inner.len() >= 2,
        Rule::TriggerRelationOp => node.inner.len() >= 1 && forall|i: int|
            1 <= i < node.inner.len() ==> is_trigger_clause(#[trigger] node.inner[i]),
        _ => false,
    }
}

/// The command that `node` writes.
///
/// A kill command whose first node is no decimal number fails with the text
/// of that node and the place where it stands. No other command fails.
pub open spec fn sys_op_of(node: Pair) -> Result<SysOpView, ProcessIdError> {
    match node.rule {
        Rule::CompactOp => Ok(SysOpView::Compact),
        Rule::RunningOp => Ok(SysOpView::ListRunning),
        Rule::KillOp => match decimal_of(node.inner[0].text@) {
            Some(id) => Ok(SysOpView::KillRunning(id)),
            None => Err(ProcessIdError(node.inner[0].text, node.inner[0].span)),
        },
        Rule::ListRelationsOp => Ok(SysOpView::ListRelations),
        Rule::RemoveRelationsOp => Ok(SysOpView::RemoveRelation(symbols_of(node.inner@))),
        Rule::ListRelationOp => Ok(SysOpView::ListRelation(symbol_of(node.inner[0]))),
        Rule::RenameRelationsOp => Ok(SysOpView::RenameRelation(renames_of(node.inner@))),
        Rule::TriggerRelationShowOp => Ok(SysOpView::ShowTrigger(symbol_of(node.inner[0]))),
        _ => Ok(
            SysOpView::SetTriggers(
                symbol_of(node.inner[0]),
                scripts_of(node.inner@.drop_first(), Rule::TriggerPut),
                scripts_of(node.inner@.drop_first(), Rule::TriggerRm),
                scripts_of(node.inner@.drop_first(), Rule::TriggerReplace),
            ),
        ),
    }
}

/// The view of the result of reading a command.
pub open spec fn sys_result(r: Result<SysOp, ProcessIdError>) -> Result<SysOpView, ProcessIdError> {
    match r {
        Ok(op) => Ok(op@),
        Err(e) => Err(e),
    }
}

impl Pair {
    /// Whether the node has the shape of a system command.
    #[verifier::loop_isolation(false)]
    pub fn is_sys_command(&self) -> (r: bool)
        ensures
            r == is_sys_command(*self),
    {
        match self.rule {
            Rule::CompactOp
            | Rule::RunningOp
            | Rule::ListRelationsOp
            | Rule::RemoveRelationsOp => true,
            Rule::KillOp | Rule::ListRelationOp | Rule::TriggerRelationShowOp => self.inner.len()
                >= 1,
            Rule::RenameRelationsOp => {
                let mut i: usize = 0;
                while i < self.inner.len()
                    invariant
                        i <= self.inner.len(),
                        forall|j: int| 0 <= j < i ==> (#[trigger] self.inner[j]).inner.len() >= 2,
                    decreases self.inner.len() - i,
                {
                    if self.inner[i].inner.len() < 2 {
                        return false;
                    }
                    i += 1;
                }
                true
            },
            Rule::TriggerRelationOp => {
                if self.inner.len() < 1 {
                    return false;
                }
                let mut i: usize = 1;
                while i < self.inner.len()
                    invariant
                        1 <= i <= self.inner.len(),
                        forall|j: int| 1 <= j < i ==> is_trigger_clause(#[trigger] self.inner[j]),
                    decreases self.inner.len() - i,
                {
                    let clause = &self.inner[i];
                    if clause.inner.len() < 2 {
                        return false;
                    }
                    match clause.inner[0].rule {
                        Rule::TriggerPut | Rule::TriggerRm | Rule::TriggerReplace => {},
                        _ => {
                            return false;
                        },
                    }
                    i += 1;
                }
                true
            },
            _ => false,
        }
    }

    /// The symbol that the node writes.
    pub fn into_symbol(self) -> (r: Symbol)
        ensures
            r == symbol_of(self),
    {
        Symbol { name: self.text, span: self.span }
    }
}

/// Reads the system command that the first of `src` writes. The scripts of a
/// trigger command are taken as the text that they are: whether each of them
/// is a query is for the caller to find out.
pub fn parse_sys(src: Vec<Pair>) -> (r: Result<SysOp, ProcessIdError>)
    requires
        src.len() > 0,
        is_sys_command(src[0]),
    ensures
        sys_result(r) == sys_op_of(src[0]),
{
    let mut src = src;
    let node = src.remove(0);
    let ghost whole = node;
    let Pair { rule, text: _, span: _, inner } = node;
    let mut inner = inner;
    match rule {
        Rule::CompactOp => Ok(SysOp::Compact),
        Rule::RunningOp => Ok(SysOp::ListRunning),
        Rule::KillOp => {
            let id = inner.remove(0);
            match parse_decimal(&id.text) {
                Some(i) => Ok(SysOp::KillRunning(i)),
                None => Err(ProcessIdError(id.text, id.span)),
            }
        },
        Rule::ListRelationsOp => Ok(SysOp::ListRelations),
        Rule::RemoveRelationsOp => {
            let mut rels: Vec<Symbol> = Vec::new();
            for node in it: inner
                invariant
                    it.seq() == whole.inner@,
                    rels@ == symbols_of(whole.inner@.take(it.index() as int)),
            {
                assert(symbols_of(whole.inner@.take(it.index() + 1)) =~= symbols_of(
                    whole.inner@.take(it.index() as int),
                ).push(symbol_of(node)));
                rels.push(node.into_symbol());
            }
            assert(whole.inner@.take(whole.inner@.len() as int) =~= whole.inner@);
            Ok(SysOp::RemoveRelation(rels))
        },
        Rule::ListRelationOp => {
            let rel = inner.remove(0);
            Ok(SysOp::ListRelation(rel.into_symbol()))
        },
        Rule::RenameRelationsOp => {
            let mut renames: Vec<(Symbol, Symbol)> = Vec::new();
            for node in it: inner
                invariant
                    it.seq() == whole.inner@,
                    forall|i: int|
                        0 <= i < whole.inner.len() ==> (#[trigger] whole.inner[i]).inner.len() >= 2,
                    renames@ == renames_of(whole.inner@.take(it.index() as int)),
            {
                assert(renames_of(whole.inner@.take(it.index() + 1)) =~= renames_of(
                    whole.inner@.take(it.index() as int),
                ).push((symbol_of(node.inner[0]), symbol_of(node.inner[1]))));
                assert(node == whole.inner[it.index() as int]);
                let mut names = node.inner;
                let new_rel = names.swap_remove(1);
                let rel = names.swap_remove(0);
                renames.push((rel.into_symbol(), new_rel.into_symbol()));
            }
            assert(whole.inner@.take(whole.inner@.len() as int) =~= whole.inner@);
            Ok(SysOp::RenameRelation(renames))
        },
        Rule::TriggerRelationShowOp => {
            let rel = inner.remove(0);
            Ok(SysOp::ShowTrigger(rel.into_symbol()))
        },
        _ => {
            let rel = inner.remove(0);
            let ghost clauses = whole.inner@.drop_first();
            assert(inner@ =~= clauses);
            let mut puts: Vec<String> = Vec::new();
            let mut rms: Vec<String> = Vec::new();
            let mut replaces: Vec<String> = Vec::new();
            for clause in it: inner
                invariant
                    it.seq() == clauses,
                    forall|i: int|
                        0 <= i < clauses.len() ==> is_trigger_clause(#[trigger] clauses[i]),
                    puts@ == scripts_of(clauses.take(it.index() as int), Rule::TriggerPut),
                    rms@ == scripts_of(clauses.take(it.index() as int), Rule::TriggerRm),
                    replaces@ == scripts_of(clauses.take(it.index() as int), Rule::TriggerReplace),
            {
                proof {
                    let upto = clauses.take(it.index() + 1);
                    assert(upto.drop_last() =~= clauses.take(it.index() as int));
                    assert(upto.last() == clause);
                    assert(is_trigger_clause(clauses[it.index() as int]));
                }
                let mut parts = clause.inner;
                let script = parts.swap_remove(1);
                let op = parts.swap_remove(0);
                match op.rule {
                    Rule::TriggerPut => puts.push(script.text),
                    Rule::TriggerRm => rms.push(script.text),
                    _ => replaces.push(script.text),
                }
            }
            assert(clauses.take(clauses.len() as int) =~= clauses);
            Ok(SysOp::SetTriggers(rel.into_symbol(), puts, rms, replaces))
        },
    }
}

} // verus!
