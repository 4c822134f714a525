//! Emits the source of a whole parser.
use vstd::prelude::*;
use vstd::string::*;
use pest_meta::optimizer::OptimizedRule;
use crate::error::texts_of;
use crate::expr::{ExprModel, FPestExpr};
use crate::expr_codegen::{code, code_text, flag, keys_after, registered_all};
use crate::generator::{Generator, Template};
use crate::grammar::{find_in, rule_models, GrammarRule};
use crate::ids::{id_text, registered, IdRegistry};
use crate::multi_replace::{multi_replace, multi_replaced, patterns_of, values_of};
use crate::rules::{all_supported, first_unsupported, lower, lowered, GrammarError};
use crate::semantics::{has_whitespace, RuleModel};
use crate::text::{push_char, replace, replaced};
use crate::tree_inspection::{
    all_exprs,
    borrowed_models,
    contains_idents,
    list_exprs,
    touches_idents,
};

verus! {

/// The name with its first character in upper case, where that character
/// is an ASCII letter.
pub open spec fn pascal_text(name: Seq<char>) -> Seq<char> {
    if name.len() == 0 {
        name
    } else if 'a' <= name[0] && name[0] <= 'z' {
        seq![((name[0] as u8) - 32) as u8 as char] + name.skip(1)
    } else {
        name
    }
}

/// The name with its first character in upper case, where that character
/// is an ASCII letter.
pub fn pascal_case(name: &str) -> (r: String)
    ensures
        r@ == pascal_text(name@),
{
    let n = name.unicode_len();
    if n == 0 {
        return String::from_str(name);
    }
    let first = name.get_char(0);
    if 'a' <= first && first <= 'z' {
        let mut r = String::new();
        push_char(&mut r, ((first as u8) - 32) as char);
        r.append(name.substring_char(1, n));
        assert(name@.subrange(1, n as int) =~= name@.skip(1));
        assert(r@ =~= pascal_text(name@));
        r
    } else {
        String::from_str(name)
    }
}

/// The names of the rules that are not silent, in the order of the rules.
pub open spec fn visible_names(rules: Seq<RuleModel>) -> Seq<Seq<char>>
    decreases rules.len(),
{
    if rules.len() == 0 {
        Seq::empty()
    } else if rules.last().silent {
        visible_names(rules.drop_last())
    } else {
        visible_names(rules.drop_last()).push(rules.last().name)
    }
}

/// The names of a list, each with its first character in upper case.
pub open spec fn pascal_all(names: Seq<Seq<char>>) -> Seq<Seq<char>> {
    Seq::new(names.len(), |i: int| pascal_text(names[i]))
}

/// The frame of the parser: the template of the frame with one line for
/// every rule that is not silent wherever a line names a rule, and with
/// the name of the parser.
pub open spec fn outer_text<G: Generator>(struct_ident: Seq<char>, rules: Seq<RuleModel>) -> Seq<
    char,
> {
    replaced(
        multi_replaced(
            G::template(Template::Outer),
            seq!["RuleVariant"@, "IdentVariant"@],
            seq![visible_names(rules), pascal_all(visible_names(rules))],
            visible_names(rules).len(),
        ),
        "StructIdent"@,
        struct_ident,
    )
}

/// The entry procedures of a rule: the template of a silent rule or of a
/// rule that leaves a label, and the template of the entry point, with
/// the name of the rule, the name of its body and the name of the parser.
pub open spec fn rule_text<G: Generator>(
    keys: Seq<ExprModel>,
    rule: RuleModel,
    struct_ident: Seq<char>,
    whitespace: bool,
) -> Seq<char> {
    let template = if rule.silent {
        G::template(Template::RuleSilent)
    } else {
        G::template(Template::Rule)
    } + G::template(Template::RuleMethod);
    replaced(
        replaced(
            replaced(
                replaced(
                    replaced(template, "RuleVariant"@, rule.name),
                    "top_expr_id"@,
                    id_text(keys, rule.expr),
                ),
                "formatted_idents"@,
                flag(touches_idents(rule.expr, whitespace)),
            ),
            "IdentVariant"@,
            pascal_text(rule.name),
        ),
        "StructIdent"@,
        struct_ident,
    )
}

/// The bodies of the rules, one after the other.
pub open spec fn bodies(rules: Seq<RuleModel>) -> Seq<ExprModel> {
    Seq::new(rules.len(), |i: int| rules[i].expr)
}

/// The entry procedures of all the rules, one rule after the other, each
/// body named after the ones before it.
pub open spec fn rules_text<G: Generator>(
    rules: Seq<RuleModel>,
    struct_ident: Seq<char>,
    whitespace: bool,
) -> Seq<char>
    decreases rules.len(),
{
    if rules.len() == 0 {
        Seq::empty()
    } else {
        rules_text::<G>(rules.drop_last(), struct_ident, whitespace) + rule_text::<G>(
            registered_all(Seq::empty(), bodies(rules.drop_last())),
            rules.last(),
            struct_ident,
            whitespace,
        )
    }
}

/// The nodes of the bodies of all the rules, one rule after the other.
pub open spec fn all_nodes(rules: Seq<RuleModel>) -> Seq<ExprModel>
    decreases rules.len(),
{
    if rules.len() == 0 {
        Seq::empty()
    } else {
        all_nodes(rules.drop_last()) + all_exprs(rules.last().expr)
    }
}

/// The expression stands in the list before the place `k`.
pub open spec fn seen_before(nodes: Seq<ExprModel>, k: int) -> bool {
    exists|j: int| 0 <= j < k && nodes[j] == nodes[k]
}

/// The registry after the procedures of the first `k` nodes were
/// emitted, every distinct node once.
pub open spec fn keys_emitted(keys: Seq<ExprModel>, nodes: Seq<ExprModel>, k: nat) -> Seq<
    ExprModel,
>
    decreases k,
{
    if k == 0 {
        keys
    } else if seen_before(nodes, k - 1) {
        keys_emitted(keys, nodes, (k - 1) as nat)
    } else {
        keys_after(keys_emitted(keys, nodes, (k - 1) as nat), nodes[k - 1])
    }
}

/// The procedures of the first `k` nodes, every distinct node at its
/// first place in the list.
pub open spec fn nodes_text<G: Generator>(
    keys: Seq<ExprModel>,
    nodes: Seq<ExprModel>,
    k: nat,
    whitespace: bool,
) -> Seq<char>
    decreases k,
{
    if k == 0 {
        Seq::empty()
    } else if seen_before(nodes, k - 1) {
        nodes_text::<G>(keys, nodes, (k - 1) as nat, whitespace)
    } else {
        nodes_text::<G>(keys, nodes, (k - 1) as nat, whitespace) + code_text::<G>(
            keys_emitted(keys, nodes, (k - 1) as nat),
            nodes[k - 1],
            whitespace,
        )
    }
}

/// The source of the parser of a rule table: the frame, and in it the
/// entry procedures of every rule and the procedures of every distinct
/// node. The bodies of the rules are named first, in the order of the
/// rules, then all the nodes in the order in which a walk through the
/// rules meets them.
pub open spec fn generated<G: Generator>(struct_ident: Seq<char>, rules: Seq<RuleModel>) -> Seq<
    char,
> {
    let whitespace = has_whitespace(rules);
    let nodes = all_nodes(rules);
    let keys = registered_all(registered_all(Seq::empty(), bodies(rules)), nodes);
    replaced(
        outer_text::<G>(struct_ident, rules),
        "    // inner code"@,
        rules_text::<G>(rules, struct_ident, whitespace) + nodes_text::<G>(
            keys,
            nodes,
            nodes.len(),
            whitespace,
        ),
    )
}

fn outer<G: Generator>(struct_ident: &str, rules: &Vec<GrammarRule>) -> (r: String)
    ensures
        r@ == outer_text::<G>(struct_ident@, rule_models(rules@)),
{
    let ghost all = rule_models(rules@);
    let mut names: Vec<String> = Vec::new();
    let mut pascals: Vec<String> = Vec::new();
    let mut i: usize = 0;
    assert(all.take(0) =~= Seq::<RuleModel>::empty());
    while i < rules.len()
        invariant
            i <= rules.len(),
            all == rule_models(rules@),
            texts_of(names@) == visible_names(all.take(i as int)),
            texts_of(pascals@) == pascal_all(visible_names(all.take(i as int))),
        decreases rules.len() - i,
    {
        proof {
            assert(all.take(i + 1).drop_last() =~= all.take(i as int));
            assert(all.take(i + 1).last() == rules@[i as int]@);
        }
        if !rules[i].silent {
            let ghost before = texts_of(names@);
            let ghost before_pascals = texts_of(pascals@);
            names.push(rules[i].name.clone());
            pascals.push(pascal_case(rules[i].name.as_str()));
            proof {
                assert(texts_of(names@) =~= before.push(rules@[i as int].name@));
                assert(texts_of(pascals@) =~= before_pascals.push(
                    pascal_text(rules@[i as int].name@),
                ));
                assert(pascal_all(before.push(rules@[i as int].name@)) =~= before_pascals.push(
                    pascal_text(rules@[i as int].name@),
                ));
            }
        }
        i += 1;
    }
    assert(all.take(rules@.len() as int) =~= all);
    assert(texts_of(names@).len() == names@.len());
    assert(texts_of(pascals@).len() == pascals@.len());
    let mut values: Vec<(&'static str, Vec<String>)> = Vec::new();
    values.push(("RuleVariant", names));
    values.push(("IdentVariant", pascals));
    proof {
        assert(patterns_of(values@) =~= seq!["RuleVariant"@, "IdentVariant"@]);
        assert(values_of(values@) =~= seq![
            visible_names(all),
            pascal_all(visible_names(all)),
        ]);
    }
    let full_code = multi_replace(String::from_str(G::pattern_outer()), values);
    replace(full_code.as_str(), "StructIdent", struct_ident)
}

fn rule_code<G: Generator>(
    rule: &GrammarRule,
    ids: &mut IdRegistry,
    struct_ident: &str,
    whitespace: bool,
) -> (r: String)
    ensures
        r@ == rule_text::<G>(old(ids)@, rule@, struct_ident@, whitespace),
        final(ids)@ == registered(old(ids)@, rule@.expr),
{
    let top_expr_id = ids.id(&rule.expr);
    let formatted_idents = if contains_idents(&rule.expr, whitespace) {
        "idents"
    } else {
        ""
    };
    let mut code = if rule.silent {
        String::from_str(G::pattern_rule_silent())
    } else {
        String::from_str(G::pattern_rule())
    };
    code.append(G::pattern_rule_method());
    let code = replace(code.as_str(), "RuleVariant", rule.name.as_str());
    let code = replace(code.as_str(), "top_expr_id", top_expr_id.as_str());
    let code = replace(code.as_str(), "formatted_idents", formatted_idents);
    let code = replace(code.as_str(), "IdentVariant", pascal_case(rule.name.as_str()).as_str());
    replace(code.as_str(), "StructIdent", struct_ident)
}

/// Whether the expression stands in the list before the place `k`.
fn seen(nodes: &Vec<&FPestExpr>, k: usize) -> (r: bool)
    requires
        k < nodes.len(),
    ensures
        r == seen_before(borrowed_models(nodes@), k as int),
{
    let ghost all = borrowed_models(nodes@);
    let mut j: usize = 0;
    while j < k
        invariant
            j <= k < nodes.len(),
            all == borrowed_models(nodes@),
            forall|i: int| 0 <= i < j ==> all[i] != all[k as int],
        decreases k - j,
    {
        if nodes[j].same(nodes[k]) {
            assert(all[j as int] == all[k as int]);
            return true;
        }
        j += 1;
    }
    false
}

/// Emits the source of the parser of a rule table.
#[verifier::rlimit(40)]
pub fn generate<G: Generator>(struct_ident: &str, rules: &Vec<GrammarRule>) -> (r: String)
    ensures
        r@ == generated::<G>(struct_ident@, rule_models(rules@)),
{
    let ghost all = rule_models(rules@);
    let whitespace = find_in(rules, "WHITESPACE").is_some();
    let full_code = outer::<G>(struct_ident, rules);
    let mut ids = IdRegistry::new();
    let mut inner_code = String::new();
    let mut exprs: Vec<&FPestExpr> = Vec::new();
    let mut i: usize = 0;
    proof {
        assert(all.take(0) =~= Seq::<RuleModel>::empty());
        assert(borrowed_models(exprs@) =~= Seq::<ExprModel>::empty());
        assert(bodies(all.take(0)) =~= Seq::<ExprModel>::empty());
    }
    while i < rules.len()
        invariant
            i <= rules.len(),
            all == rule_models(rules@),
            whitespace == has_whitespace(all),
            ids@ == registered_all(Seq::empty(), bodies(all.take(i as int))),
            inner_code@ == rules_text::<G>(all.take(i as int), struct_ident@, whitespace),
            borrowed_models(exprs@) == all_nodes(all.take(i as int)),
        decreases rules.len() - i,
    {
        proof {
            assert(all.take(i + 1).drop_last() =~= all.take(i as int));
            assert(all.take(i + 1).last() == rules@[i as int]@);
            assert(bodies(all.take(i + 1)).drop_last() =~= bodies(all.take(i as int)));
            assert(bodies(all.take(i + 1)).last() == rules@[i as int]@.expr);
        }
        let ghost before = borrowed_models(exprs@);
        let mut below = list_exprs(&rules[i].expr);
        let ghost added = borrowed_models(below@);
        exprs.append(&mut below);
        assert(borrowed_models(exprs@) =~= before + added);
        let text = rule_code::<G>(&rules[i], &mut ids, struct_ident, whitespace);
        inner_code.append(text.as_str());
        i += 1;
    }
    proof {
        assert(all.take(rules@.len() as int) =~= all);
    }
    let ghost nodes = borrowed_models(exprs@);
    let ghost named = ids@;
    let mut k: usize = 0;
    assert(nodes.take(0) =~= Seq::<ExprModel>::empty());
    while k < exprs.len()
        invariant
            k <= exprs.len(),
            nodes == borrowed_models(exprs@),
            ids@ == registered_all(named, nodes.take(k as int)),
        decreases exprs.len() - k,
    {
        proof {
            assert(nodes.take(k + 1).drop_last() =~= nodes.take(k as int));
            assert(nodes.take(k + 1).last() == exprs@[k as int]@);
        }
        let _ = ids.id(exprs[k]);
        k += 1;
    }
    proof {
        assert(nodes.take(exprs@.len() as int) =~= nodes);
    }
    let ghost keys = ids@;
    let ghost wrappers = inner_code@;
    let mut k: usize = 0;
    assert(wrappers + Seq::<char>::empty() =~= wrappers);
    while k < exprs.len()
        invariant
            k <= exprs.len(),
            nodes == borrowed_models(exprs@),
            ids@ == keys_emitted(keys, nodes, k as nat),
            inner_code@ == wrappers + nodes_text::<G>(keys, nodes, k as nat, whitespace),
        decreases exprs.len() - k,
    {
        assert(nodes[k as int] == exprs@[k as int]@);
        if !seen(&exprs, k) {
            let ghost before = nodes_text::<G>(keys, nodes, k as nat, whitespace);
            let new_code = code::<G>(exprs[k], &mut ids, whitespace);
            inner_code.append(new_code.as_str());
            assert(wrappers + before + new_code@ =~= wrappers + (before + new_code@));
        }
        k += 1;
    }
    replace(full_code.as_str(), "    // inner code", inner_code.as_str())
}

/// Emits the source of the parser of a grammar: lowers the rules into the
/// rule table and emits the source of its parser.
pub fn gen<G: Generator>(struct_ident: String, rules: &Vec<OptimizedRule>) -> (r: Result<
    String,
    GrammarError,
>)
    ensures
        match r {
            Ok(text) => all_supported(rules@) && text@ == generated::<G>(
                struct_ident@,
                lowered(rules@),
            ),
            Err(GrammarError::Unsupported(k)) => first_unsupported(rules@, k as int),
        },
{
    match lower(rules) {
        Ok(table) => Ok(generate::<G>(struct_ident.as_str(), &table)),
        Err(e) => Err(e),
    }
}

} // verus!
