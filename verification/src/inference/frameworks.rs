//! Definitions inferred from framework-specific hints (decorators, calls)
//! by declarative rules grouped per framework.

use vstd::prelude::*;
use vstd::hash_map::StringHashMap;
use crate::analysis::language::SupportedLanguage;
use crate::inference::InferenceRule;
use crate::models::{FileBoundary, FrameworkHint, FrameworkHintV, strings_view, hints_view};
use crate::text::{replace_all, ends_with, has_sub, str_replace, str_ends_with, str_contains, str_eq};

verus! {

/// The universal concepts extracted from any framework.
#[derive(Debug, Clone, Copy, PartialEq, Eq, Structural)]
pub enum ConceptType {
    /// A URL endpoint: `route:{method}:{path}`.
    Route,
    /// A database model or table: `model:{name}`.
    Model,
    /// A view, template or component: `view:{name}` or `html:tag:{name}`.
    View,
    /// A dependency injection token that is provided: `di:{token}`.
    DependencyProvider,
    /// A dependency injection token that is used: `di:{token}`.
    DependencyConsumer,
}

/// How to extract a concept from one framework pattern.
#[derive(Debug)]
pub struct ConceptRule {
    /// The concept generated.
    pub concept: ConceptType,
    /// The hint key that triggers the rule (`Controller`, `Get`, `route`).
    pub trigger_key: String,
    /// A regular expression whose first group is taken from the hint's
    /// value; without one the whole value is taken.
    pub extraction_regex: Option<String>,
    /// The output, with `{}` for the value and `{parent}` for the value of
    /// the parent rule.
    pub output_template: String,
    /// The trigger key of the rule whose value this one is nested under.
    pub parent_context_key: Option<String>,
}

/// The model of a [`ConceptRule`].
pub struct ConceptRuleV {
    pub concept: ConceptType,
    pub trigger_key: Seq<char>,
    pub extraction_regex: Option<Seq<char>>,
    pub output_template: Seq<char>,
    pub parent_context_key: Option<Seq<char>>,
}

/// The model of an optional string.
pub open spec fn opt_view(o: Option<String>) -> Option<Seq<char>> {
    match o {
        Some(s) => Some(s@),
        None => None,
    }
}

impl View for ConceptRule {
    type V = ConceptRuleV;

    open spec fn view(&self) -> ConceptRuleV {
        ConceptRuleV {
            concept: self.concept,
            trigger_key: self.trigger_key@,
            extraction_regex: opt_view(self.extraction_regex),
            output_template: self.output_template@,
            parent_context_key: opt_view(self.parent_context_key),
        }
    }
}

/// A framework (Spring Boot, Flask, Angular...) and its rules.
pub struct FrameworkSpec {
    pub name: String,
    pub language: SupportedLanguage,
    /// An import that the file must have, in part.
    pub detection_import: Option<String>,
    /// A suffix that the file's path must have.
    pub detection_suffix: Option<String>,
    pub rules: Vec<ConceptRule>,
}

/// The model of a [`FrameworkSpec`].
pub struct FrameworkSpecV {
    pub name: Seq<char>,
    pub language: SupportedLanguage,
    pub detection_import: Option<Seq<char>>,
    pub detection_suffix: Option<Seq<char>>,
    pub rules: Seq<ConceptRuleV>,
}

/// The models of a list of rules.
pub open spec fn rules_view(v: Seq<ConceptRule>) -> Seq<ConceptRuleV> {
    v.map_values(|r: ConceptRule| r@)
}

impl View for FrameworkSpec {
    type V = FrameworkSpecV;

    open spec fn view(&self) -> FrameworkSpecV {
        FrameworkSpecV {
            name: self.name@,
            language: self.language,
            detection_import: opt_view(self.detection_import),
            detection_suffix: opt_view(self.detection_suffix),
            rules: rules_view(self.rules@),
        }
    }
}

/// The first group of the first match of the regular expression `pattern`
/// in `text`, if `pattern` compiles and matches with that group.
pub uninterp spec fn regex_group1(pattern: Seq<char>, text: Seq<char>) -> Option<Seq<char>>;

/// The first capture group of the first match of `pattern` in `text`
/// (`regex::Regex::new`, then `Regex::captures` and `Captures::get(1)`):
/// the contract says only that the result is the one named
/// [`regex_group1`] for these arguments.
#[verifier::external_body]
fn first_group(pattern: &str, text: &str) -> (r: Option<String>)
    ensures
        opt_view(r) == regex_group1(pattern@, text@),
{
    match regex::Regex::new(pattern) {
        Ok(re) => match re.captures(text) {
            Some(cap) => match cap.get(1) {
                Some(m) => Some(m.as_str().to_string()),
                None => None,
            },
            None => None,
        },
        Err(_) => None,
    }
}

/// The value a rule takes from a hint's value.
pub open spec fn extracted(pattern: Option<Seq<char>>, value: Seq<char>) -> Option<Seq<char>> {
    match pattern {
        Some(p) => regex_group1(p, value),
        None => Some(value),
    }
}

fn extract_value(hint: &FrameworkHint, regex: &Option<String>) -> (r: Option<String>)
    ensures
        opt_view(r) == extracted(opt_view(*regex), hint.value@),
{
    match regex {
        Some(p) => first_group(p.as_str(), hint.value.as_str()),
        None => Some(hint.value.clone()),
    }
}

/// The output of a rule: `{}` replaced by the value, then `{parent}` by the
/// parent's value if there is one, then every `//` by `/`.
pub open spec fn formatted(template: Seq<char>, value: Seq<char>, context: Option<Seq<char>>) -> Seq<
    char,
> {
    let out = replace_all(template, "{}"@, value);
    let out = match context {
        Some(c) => replace_all(out, "{parent}"@, c),
        None => out,
    };
    replace_all(out, "//"@, "/"@)
}

/// Fills a rule's output template.
pub fn format_output(template: &str, value: &str, context: Option<&String>) -> (r: String)
    ensures
        r@ == formatted(
            template@,
            value@,
            match context {
                Some(c) => Some(c@),
                None => None,
            },
        ),
{
    let mut out = str_replace(template, "{}", value);
    match context {
        Some(ctx) => {
            out = str_replace(out.as_str(), "{parent}", ctx.as_str());
        },
        None => {},
    }
    str_replace(out.as_str(), "//", "/")
}

/// The values a rule takes from the hints, in order.
pub open spec fn rule_values(rule: ConceptRuleV, hints: Seq<FrameworkHintV>) -> Seq<Seq<char>>
    decreases hints.len(),
{
    if hints.len() == 0 {
        Seq::empty()
    } else {
        let rest = rule_values(rule, hints.drop_last());
        let h = hints.last();
        if h.key == rule.trigger_key && extracted(rule.extraction_regex, h.value) is Some {
            rest.push(extracted(rule.extraction_regex, h.value).unwrap())
        } else {
            rest
        }
    }
}

/// The outputs of a rule for its values.
pub open spec fn rule_outputs(rule: ConceptRuleV, values: Seq<Seq<char>>, context: Option<Seq<char>>) -> Seq<
    Seq<char>,
> {
    values.map_values(|v: Seq<char>| formatted(rule.output_template, v, context))
}

/// The outputs of the rules without a parent.
pub open spec fn independent_outputs(rules: Seq<ConceptRuleV>, hints: Seq<FrameworkHintV>) -> Seq<
    Seq<char>,
>
    decreases rules.len(),
{
    if rules.len() == 0 {
        Seq::empty()
    } else {
        let r = rules.last();
        independent_outputs(rules.drop_last(), hints) + if r.parent_context_key is None {
            rule_outputs(r, rule_values(r, hints), None)
        } else {
            Seq::empty()
        }
    }
}

/// The last value of each trigger key among the rules without a parent.
pub open spec fn context_values(rules: Seq<ConceptRuleV>, hints: Seq<FrameworkHintV>) -> Map<
    Seq<char>,
    Seq<char>,
>
    decreases rules.len(),
{
    if rules.len() == 0 {
        Map::empty()
    } else {
        let m = context_values(rules.drop_last(), hints);
        let r = rules.last();
        let vals = rule_values(r, hints);
        if r.parent_context_key is None && vals.len() > 0 {
            m.insert(r.trigger_key, vals.last())
        } else {
            m
        }
    }
}

/// The outputs of the rules with a parent whose key has a value.
pub open spec fn dependent_outputs(
    rules: Seq<ConceptRuleV>,
    hints: Seq<FrameworkHintV>,
    ctx: Map<Seq<char>, Seq<char>>,
) -> Seq<Seq<char>>
    decreases rules.len(),
{
    if rules.len() == 0 {
        Seq::empty()
    } else {
        let r = rules.last();
        dependent_outputs(rules.drop_last(), hints, ctx) + match r.parent_context_key {
            Some(pk) => if ctx.contains_key(pk) {
                rule_outputs(r, rule_values(r, hints), Some(ctx[pk]))
            } else {
                Seq::empty()
            },
            None => Seq::empty(),
        }
    }
}

/// A framework applies to a file with the path and imports given.
pub open spec fn applies(spec: FrameworkSpecV, path: Seq<char>, imports: Seq<Seq<char>>) -> bool {
    &&& (spec.detection_suffix matches Some(s) ==> ends_with(path, s))
    &&& (spec.detection_import matches Some(imp) ==> exists|i: int|
        0 <= i < imports.len() && has_sub(#[trigger] imports[i], imp))
}

/// The definitions of the frameworks that apply to a file.
pub open spec fn framework_defs(
    specs: Seq<FrameworkSpecV>,
    path: Seq<char>,
    imports: Seq<Seq<char>>,
    hints: Seq<FrameworkHintV>,
) -> Seq<Seq<char>>
    decreases specs.len(),
{
    if specs.len() == 0 {
        Seq::empty()
    } else {
        let s = specs.last();
        framework_defs(specs.drop_last(), path, imports, hints) + if applies(s, path, imports) {
            independent_outputs(s.rules, hints) + dependent_outputs(
                s.rules,
                hints,
                context_values(s.rules, hints),
            )
        } else {
            Seq::empty()
        }
    }
}

/// A framework whose import marker occurs anywhere inside one of the
/// file's imports (`Illuminate` inside
/// `Illuminate\Support\Facades\Route`) applies to the file, where its path
/// suffix, if it has one, allows.
pub proof fn law_marker_inside_an_import_applies(
    spec: FrameworkSpecV,
    path: Seq<char>,
    imports: Seq<Seq<char>>,
    i: int,
    before: Seq<char>,
    after: Seq<char>,
)
    requires
        spec.detection_import matches Some(imp) && 0 <= i < imports.len() && imports[i] == before + imp + after,
        spec.detection_suffix matches Some(s) ==> ends_with(path, s),
    ensures
        applies(spec, path, imports),
{
    let imp = spec.detection_import->0;
    assert(imports[i].subrange(before.len() as int, (before.len() + imp.len()) as int) =~= imp);
    assert(crate::text::occurs_at(imports[i], imp, before.len() as int));
}

/// A framework with an import marker applies only to a file one of whose
/// imports contains the marker, and with a path suffix only to a file whose
/// path ends with it.
pub proof fn law_applies_needs_marker(spec: FrameworkSpecV, path: Seq<char>, imports: Seq<Seq<char>>)
    requires
        applies(spec, path, imports),
    ensures
        spec.detection_import matches Some(imp) ==> exists|i: int| 0 <= i < imports.len() && has_sub(#[trigger] imports[i], imp),
        spec.detection_suffix matches Some(s) ==> ends_with(path, s),
{
}

/// A framework that applies to a file contributes its rules' outputs after
/// those of the frameworks before it; one that does not contributes nothing.
pub proof fn law_applying_frameworks_contribute(
    specs: Seq<FrameworkSpecV>,
    s: FrameworkSpecV,
    path: Seq<char>,
    imports: Seq<Seq<char>>,
    hints: Seq<FrameworkHintV>,
)
    ensures
        framework_defs(specs.push(s), path, imports, hints) == framework_defs(specs, path, imports, hints) + if applies(
            s,
            path,
            imports,
        ) {
            independent_outputs(s.rules, hints) + dependent_outputs(s.rules, hints, context_values(s.rules, hints))
        } else {
            Seq::empty()
        },
{
    assert(specs.push(s).drop_last() =~= specs);
}

/// The values rule `rule` takes from `hints`.
fn rule_values_exec(rule: &ConceptRule, hints: &Vec<FrameworkHint>) -> (r: Vec<String>)
    ensures
        strings_view(r@) == rule_values(rule@, hints_view(hints@)),
{
    let mut out: Vec<String> = Vec::new();
    let mut i: usize = 0;
    while i < hints.len()
        invariant
            0 <= i <= hints@.len(),
            strings_view(out@) == rule_values(rule@, hints_view(hints@).take(i as int)),
        decreases hints@.len() - i,
    {
        let h = &hints[i];
        proof {
            assert(hints_view(hints@).take(i + 1).drop_last() =~= hints_view(hints@).take(i as int));
            assert(hints_view(hints@).take(i + 1).last() == h@);
        }
        if str_eq(h.key.as_str(), rule.trigger_key.as_str()) {
            match extract_value(h, &rule.extraction_regex) {
                Some(v) => {
                    let ghost before = out@;
                    out.push(v);
                    proof {
                        assert(strings_view(out@) =~= strings_view(before).push(out@.last()@));
                    }
                },
                None => {},
            }
        }
        i = i + 1;
    }
    proof {
        assert(hints_view(hints@).take(hints@.len() as int) =~= hints_view(hints@));
    }
    out
}

/// Appends the outputs of a rule for its values.
fn push_outputs(
    results: &mut Vec<String>,
    rule: &ConceptRule,
    values: &Vec<String>,
    context: Option<&String>,
)
    ensures
        strings_view(final(results)@) == strings_view(old(results)@) + rule_outputs(
            rule@,
            strings_view(values@),
            match context {
                Some(c) => Some(c@),
                None => None,
            },
        ),
{
    let ghost ctx = match context {
        Some(c) => Some(c@),
        None => None,
    };
    let ghost start = strings_view(results@);
    let mut k: usize = 0;
    while k < values.len()
        invariant
            ctx == match context {
                Some(c) => Some(c@),
                None => None,
            },
            0 <= k <= values@.len(),
            strings_view(results@) == start + rule_outputs(rule@, strings_view(values@).take(k as int), ctx),
        decreases values@.len() - k,
    {
        let o = format_output(rule.output_template.as_str(), values[k].as_str(), context);
        let ghost before = results@;
        results.push(o);
        proof {
            assert(strings_view(results@) =~= strings_view(before).push(o@));
            assert(strings_view(values@).take(k + 1)[k as int] == values@[k as int]@);
            assert(rule_outputs(rule@, strings_view(values@).take(k + 1), ctx)[k as int] == o@);
            assert(rule_outputs(rule@, strings_view(values@).take(k + 1), ctx) =~= rule_outputs(
                rule@,
                strings_view(values@).take(k as int),
                ctx,
            ).push(o@));
        }
        k = k + 1;
    }
    proof {
        assert(strings_view(values@).take(values@.len() as int) =~= strings_view(values@));
    }
}

/// Whether framework `spec` applies to a file.
fn applies_exec(spec: &FrameworkSpec, path: &str, imports: &Vec<String>) -> (r: bool)
    ensures
        r == applies(spec@, path@, strings_view(imports@)),
{
    match &spec.detection_suffix {
        Some(suffix) => {
            if !str_ends_with(path, suffix.as_str()) {
                return false;
            }
        },
        None => {},
    }
    match &spec.detection_import {
        Some(imp) => {
            let mut i: usize = 0;
            while i < imports.len()
                invariant
                    0 <= i <= imports@.len(),
                    spec@.detection_suffix matches Some(sfx) ==> ends_with(path@, sfx),
                    spec@.detection_import == Some(imp@),
                    forall|j: int| 0 <= j < i ==> !has_sub(imports@[j]@, imp@),
                decreases imports@.len() - i,
            {
                if str_contains(imports[i].as_str(), imp.as_str()) {
                    proof {
                        assert(strings_view(imports@)[i as int] == imports@[i as int]@);
                        assert(has_sub(strings_view(imports@)[i as int], imp@));
                    }
                    return true;
                }
                i = i + 1;
            }
            proof {
                assert forall|j: int| 0 <= j < strings_view(imports@).len() implies !has_sub(
                    #[trigger] strings_view(imports@)[j],
                    imp@,
                ) by {
                    assert(strings_view(imports@)[j] == imports@[j]@);
                }
            }
            false
        },
        None => true,
    }
}

/// The outputs of one framework for a file it applies to.
fn spec_outputs(spec: &FrameworkSpec, hints: &Vec<FrameworkHint>) -> (r: Vec<String>)
    ensures
        strings_view(r@) == independent_outputs(rules_view(spec.rules@), hints_view(hints@))
            + dependent_outputs(
            rules_view(spec.rules@),
            hints_view(hints@),
            context_values(rules_view(spec.rules@), hints_view(hints@)),
        ),
{
    let ghost rules = rules_view(spec.rules@);
    let ghost hv = hints_view(hints@);
    let mut results: Vec<String> = Vec::new();
    let mut ctx: StringHashMap<String> = StringHashMap::new();
    let mut i: usize = 0;
    while i < spec.rules.len()
        invariant
            rules == rules_view(spec.rules@),
            hv == hints_view(hints@),
            0 <= i <= spec.rules@.len(),
            strings_view(results@) == independent_outputs(rules.take(i as int), hv),
            forall|k: Seq<char>| #[trigger]
                ctx@.contains_key(k) <==> context_values(rules.take(i as int), hv).contains_key(k),
            forall|k: Seq<char>| #[trigger]
                ctx@.contains_key(k) ==> ctx@[k]@ == context_values(rules.take(i as int), hv)[k],
        decreases spec.rules@.len() - i,
    {
        let rule = &spec.rules[i];
        proof {
            assert(rules.take(i + 1).drop_last() =~= rules.take(i as int));
            assert(rules.take(i + 1).last() == rule@);
        }
        if rule.parent_context_key.is_none() {
            let vals = rule_values_exec(rule, hints);
            push_outputs(&mut results, rule, &vals, None);
            if vals.len() > 0 {
                let last = vals[vals.len() - 1].clone();
                let key = rule.trigger_key.clone();
                proof {
                    assert(strings_view(vals@).last() == last@);
                }
                ctx.insert(key, last);
            }
        } else {
            proof {
                assert(independent_outputs(rules.take(i + 1), hv) =~= independent_outputs(
                    rules.take(i as int),
                    hv,
                ));
            }
        }
        i = i + 1;
    }
    proof {
        assert(rules.take(spec.rules@.len() as int) =~= rules);
    }
    let ghost ctx_spec = context_values(rules, hv);
    let ghost first = strings_view(results@);
    let mut j: usize = 0;
    while j < spec.rules.len()
        invariant
            rules == rules_view(spec.rules@),
            hv == hints_view(hints@),
            ctx_spec == context_values(rules, hv),
            0 <= j <= spec.rules@.len(),
            forall|k: Seq<char>| #[trigger] ctx@.contains_key(k) <==> ctx_spec.contains_key(k),
            forall|k: Seq<char>| #[trigger] ctx@.contains_key(k) ==> ctx@[k]@ == ctx_spec[k],
            strings_view(results@) == first + dependent_outputs(rules.take(j as int), hv, ctx_spec),
        decreases spec.rules@.len() - j,
    {
        let rule = &spec.rules[j];
        proof {
            assert(rules.take(j + 1).drop_last() =~= rules.take(j as int));
            assert(rules.take(j + 1).last() == rule@);
        }
        let ghost before = strings_view(results@);
        match &rule.parent_context_key {
            Some(pk) => {
                match ctx.get(pk.as_str()) {
                    Some(pv) => {
                        let vals = rule_values_exec(rule, hints);
                        push_outputs(&mut results, rule, &vals, Some(pv));
                    },
                    None => {},
                }
            },
            None => {},
        }
        proof {
            assert(strings_view(results@) =~= first + dependent_outputs(
                rules.take(j + 1),
                hv,
                ctx_spec,
            ));
        }
        j = j + 1;
    }
    proof {
        assert(rules.take(spec.rules@.len() as int) =~= rules);
    }
    results
}

/// Runs the rules of the frameworks that apply to a file.
pub struct FrameworkManager {
    specs: Vec<FrameworkSpec>,
}

/// The models of a list of frameworks.
pub open spec fn specs_view(v: Seq<FrameworkSpec>) -> Seq<FrameworkSpecV> {
    v.map_values(|s: FrameworkSpec| s@)
}

impl FrameworkManager {
    /// The registered frameworks, in order.
    pub closed spec fn frameworks(&self) -> Seq<FrameworkSpecV> {
        specs_view(self.specs@)
    }

    /// A manager with no frameworks.
    pub fn new() -> (r: Self)
        ensures
            r.frameworks().len() == 0,
    {
        FrameworkManager { specs: Vec::new() }
    }

    /// Adds a framework after those already registered.
    pub fn register(&mut self, spec: FrameworkSpec)
        ensures
            final(self).frameworks() == old(self).frameworks().push(spec@),
    {
        let ghost before = self.specs@;
        self.specs.push(spec);
        proof {
            assert(specs_view(self.specs@) =~= specs_view(before).push(spec@));
        }
    }
}

impl InferenceRule for FrameworkManager {
    open spec fn inferred(&self, boundary: FileBoundary) -> Seq<Seq<char>> {
        framework_defs(
            self.frameworks(),
            boundary.path@,
            strings_view(boundary.imports@),
            hints_view(boundary.framework_hints@),
        )
    }

    /// For each framework that applies to the file (by path suffix and by an
    /// import that contains its marker), the outputs of its rules without a
    /// parent, then those of its rules nested under a parent key that got a
    /// value.
    fn infer_definitions(&self, boundary: &FileBoundary) -> (r: Vec<String>)
        ensures
            strings_view(r@) == framework_defs(
                self.frameworks(),
                boundary.path@,
                strings_view(boundary.imports@),
                hints_view(boundary.framework_hints@),
            ),
    {
        let ghost specs = specs_view(self.specs@);
        let mut results: Vec<String> = Vec::new();
        let mut i: usize = 0;
        while i < self.specs.len()
            invariant
                specs == specs_view(self.specs@),
                0 <= i <= self.specs@.len(),
                strings_view(results@) == framework_defs(
                    specs.take(i as int),
                    boundary.path@,
                    strings_view(boundary.imports@),
                    hints_view(boundary.framework_hints@),
                ),
            decreases self.specs@.len() - i,
        {
            let spec = &self.specs[i];
            proof {
                assert(specs.take(i + 1).drop_last() =~= specs.take(i as int));
                assert(specs.take(i + 1).last() == spec@);
            }
            let ghost before = results@;
            if applies_exec(spec, boundary.path.as_str(), &boundary.imports) {
                let more = spec_outputs(spec, &boundary.framework_hints);
                let ghost m = more@;
                let mut more = more;
                results.append(&mut more);
                proof {
                    assert(strings_view(before + m) =~= strings_view(before) + strings_view(m));
                }
            }
            i = i + 1;
        }
        proof {
            assert(specs.take(self.specs@.len() as int) =~= specs);
        }
        results
    }
}

} // verus!
