//! Which tensors stay as they are.

use crate::remix::meta::opt_view;
use crate::text::views;
use crate::yaml::{
    yaml_get, yaml_items, yaml_of, yaml_str, yaml_text, yaml_view, yaml_views, YamlView,
};
use regex::Regex;
use serde_yaml::Value as SerdeYaml;
use vstd::prelude::*;

verus! {

/// A compiled pattern of `regex`.
#[verifier::external_type_specification]
#[verifier::external_body]
pub struct ExRegex(Regex);

/// An error of `regex`.
#[verifier::external_type_specification]
#[verifier::external_body]
pub struct ExRegexError(regex::Error);

/// The texts in which a compiled pattern has a match.
pub uninterp spec fn regex_language(re: Regex) -> Set<Seq<char>>;

/// The texts in which a pattern has a match, or `None` where it is refused.
pub uninterp spec fn pattern_language(p: Seq<char>) -> Option<Set<Seq<char>>>;

/// `Regex::new`: it succeeds on a pattern that is not refused, and the
/// compiled pattern has its matches.
#[verifier::external_body]
fn compile(p: &str) -> (r: Result<Regex, regex::Error>)
    ensures
        r is Ok <==> pattern_language(p@) is Some,
        r is Ok ==> regex_language(r->Ok_0) == pattern_language(p@)->0,
{
    Regex::new(p)
}

/// `Regex::is_match`: whether the compiled pattern has a match in a text.
#[verifier::external_body]
fn is_match(re: &Regex, text: &str) -> (r: bool)
    ensures
        r == regex_language(*re).contains(text@),
{
    re.is_match(text)
}

/// Why a policy is not taken.
#[derive(Debug, Clone, Copy, PartialEq, Eq, Structural)]
pub enum PolicyError {
    /// It is no YAML.
    BadYaml,
    /// The list of what is cast is none.
    CastNotList,
    /// The list of what is preserved is none.
    PreserveNotList,
    /// A pattern is refused.
    BadPattern,
}

/// What a policy has under a key.
#[derive(Debug)]
pub enum Listed {
    /// Nothing.
    Absent,
    /// Something that is no list.
    NotList,
    /// The texts of a list, `None` for each item that is no text.
    Items(Vec<Option<String>>),
}

/// What a policy has under a key.
pub enum ListedView {
    Absent,
    NotList,
    Items(Seq<Option<Seq<char>>>),
}

/// What items of a list mean.
pub open spec fn item_views(v: Seq<Option<String>>) -> Seq<Option<Seq<char>>> {
    Seq::new(v.len(), |i: int| opt_view(v[i]))
}

impl View for Listed {
    type V = ListedView;

    open spec fn view(&self) -> ListedView {
        match *self {
            Listed::Absent => ListedView::Absent,
            Listed::NotList => ListedView::NotList,
            Listed::Items(v) => ListedView::Items(item_views(v@)),
        }
    }
}

/// What a value has under a key.
pub open spec fn listed_under(v: YamlView, key: Seq<char>) -> ListedView {
    match v.get(key) {
        None => ListedView::Absent,
        Some(YamlView::List(items)) => ListedView::Items(
            items.map_values(|x: YamlView| x.as_str()),
        ),
        Some(_) => ListedView::NotList,
    }
}

/// The texts among some items.
pub open spec fn texts_among(items: Seq<Option<Seq<char>>>) -> Seq<Seq<char>>
    decreases items.len(),
{
    if items.len() == 0 {
        Seq::empty()
    } else {
        let rest = texts_among(items.drop_last());
        match items.last() {
            Some(s) => rest.push(s),
            None => rest,
        }
    }
}

/// The patterns that are listed: the texts of a list, the default where there
/// is nothing, `None` where there is no list.
pub open spec fn patterns_of(l: ListedView, default: Seq<Seq<char>>) -> Option<Seq<Seq<char>>> {
    match l {
        ListedView::Absent => Some(default),
        ListedView::NotList => None,
        ListedView::Items(items) => Some(texts_among(items)),
    }
}

/// Whether no pattern is refused.
pub open spec fn all_compile(patterns: Seq<Seq<char>>) -> bool {
    forall|i: int|
        0 <= i < patterns.len() ==> pattern_language(#[trigger] patterns[i]) is Some
}

/// The patterns of what a policy preserves.
pub open spec fn policy_of(text: Seq<char>) -> Result<Seq<Seq<char>>, PolicyError> {
    match yaml_text(text) {
        None => Err(PolicyError::BadYaml),
        Some(v) => policy_in(
            listed_under(v, "cast_fp16"@),
            listed_under(v, "preserve_bf16"@),
        ),
    }
}

/// The patterns of what a policy preserves. Those of what it casts are only
/// checked.
pub open spec fn policy_in(cast: ListedView, preserve: ListedView) -> Result<
    Seq<Seq<char>>,
    PolicyError,
> {
    match patterns_of(cast, seq![".*"@]) {
        None => Err(PolicyError::CastNotList),
        Some(c) => if !all_compile(c) {
            Err(PolicyError::BadPattern)
        } else {
            match patterns_of(preserve, Seq::empty()) {
                None => Err(PolicyError::PreserveNotList),
                Some(p) => if !all_compile(p) {
                    Err(PolicyError::BadPattern)
                } else {
                    Ok(p)
                },
            }
        },
    }
}

/// What a value has under a key.
fn find_listed(v: &SerdeYaml, key: &str) -> (r: Listed)
    ensures
        r@ == listed_under(yaml_view(*v), key@),
{
    let x = match yaml_get(v, key) {
        None => {
            return Listed::Absent;
        },
        Some(x) => x,
    };
    let items = match yaml_items(x) {
        None => {
            return Listed::NotList;
        },
        Some(items) => items,
    };
    let ghost want = yaml_views(items@).map_values(|x: YamlView| x.as_str());
    let mut out: Vec<Option<String>> = Vec::new();
    let mut i: usize = 0;
    while i < items.len()
        invariant
            i <= items@.len(),
            want == yaml_views(items@).map_values(|x: YamlView| x.as_str()),
            out@.len() == i,
            forall|k: int| 0 <= k < i ==> opt_view(#[trigger] out@[k]) == want[k],
        decreases items@.len() - i,
    {
        let s = match yaml_str(&items[i]) {
            Some(s) => Some(s.to_owned()),
            None => None,
        };
        assert(opt_view(s) == want[i as int]);
        out.push(s);
        i += 1;
    }
    assert(item_views(out@) =~= want);
    Listed::Items(out)
}

/// The patterns that are listed.
pub fn find_patterns(l: &Listed, default: Vec<String>) -> (r: Option<Vec<String>>)
    ensures
        r is Some <==> patterns_of(l@, views(default@)) is Some,
        r is Some ==> Some(views(r->0@)) == patterns_of(l@, views(default@)),
{
    match l {
        Listed::Absent => Some(default),
        Listed::NotList => None,
        Listed::Items(items) => {
            let ghost all = item_views(items@);
            let mut out: Vec<String> = Vec::new();
            let mut i: usize = 0;
            assert(all.take(0) =~= Seq::empty());
            assert(views(out@) =~= Seq::empty());
            while i < items.len()
                invariant
                    i <= items@.len(),
                    all == item_views(items@),
                    views(out@) == texts_among(all.take(i as int)),
                decreases items@.len() - i,
            {
                proof {
                    assert(all.take(i + 1).drop_last() =~= all.take(i as int));
                    assert(all.take(i + 1).last() == opt_view(items@[i as int]));
                }
                match &items[i] {
                    Some(s) => {
                        let ghost before = views(out@);
                        out.push(s.clone());
                        assert(views(out@) =~= before.push(s@));
                    },
                    None => {},
                }
                i += 1;
            }
            assert(all.take(i as int) =~= all);
            Some(out)
        },
    }
}

/// Whether compiled patterns are those of some texts.
pub open spec fn compiled(res: Seq<Regex>, patterns: Seq<Seq<char>>) -> bool {
    &&& res.len() == patterns.len()
    &&& forall|i: int|
        0 <= i < res.len() ==> pattern_language(#[trigger] patterns[i]) == Some(
            regex_language(res[i]),
        )
}

/// Compile all patterns.
fn compile_all(patterns: &Vec<String>) -> (r: Option<Vec<Regex>>)
    ensures
        r is Some <==> all_compile(views(patterns@)),
        r is Some ==> compiled(r->0@, views(patterns@)),
{
    let ghost all = views(patterns@);
    let mut out: Vec<Regex> = Vec::new();
    let mut i: usize = 0;
    while i < patterns.len()
        invariant
            i <= patterns@.len(),
            all == views(patterns@),
            out@.len() == i,
            forall|k: int|
                0 <= k < i ==> pattern_language(#[trigger] all[k]) == Some(
                    regex_language(out@[k]),
                ),
        decreases patterns@.len() - i,
    {
        assert(all[i as int] == patterns@[i as int]@);
        match compile(patterns[i].as_str()) {
            Ok(re) => {
                out.push(re);
            },
            Err(_) => {
                assert(pattern_language(all[i as int]) is None);
                return None;
            },
        }
        i += 1;
    }
    Some(out)
}

/// Which tensors keep their BF16 data.
pub struct Policy {
    preserve_bf16: Vec<Regex>,
    preserved: Ghost<Seq<Seq<char>>>,
}

/// Whether one of some patterns has a match in a name.
pub open spec fn any_matches(patterns: Seq<Seq<char>>, name: Seq<char>) -> bool {
    exists|i: int|
        0 <= i < patterns.len() && pattern_language(#[trigger] patterns[i])->0.contains(name)
}

impl View for Policy {
    type V = Seq<Seq<char>>;

    /// The patterns of what is preserved.
    closed spec fn view(&self) -> Seq<Seq<char>> {
        self.preserved@
    }
}

impl Policy {
    /// The compiled patterns are those of the policy.
    pub closed spec fn wf(self) -> bool {
        compiled(self.preserve_bf16@, self.preserved@)
    }

    /// Read a policy, which is YAML or JSON: under `preserve_bf16` the
    /// patterns of what is preserved, under `cast_fp16` those of what is cast,
    /// which are only checked.
    pub fn load(text: &str) -> (r: Result<Policy, PolicyError>)
        ensures
            match policy_of(text@) {
                Ok(patterns) => r is Ok && r->Ok_0@ == patterns && r->Ok_0.wf(),
                Err(e) => r is Err && r->Err_0 == e,
            },
    {
        match yaml_of(text) {
            Ok(v) => {
                let cast = find_listed(&v, "cast_fp16");
                let preserve = find_listed(&v, "preserve_bf16");
                Policy::of_lists(&cast, &preserve)
            },
            Err(_) => Err(PolicyError::BadYaml),
        }
    }

    /// A policy out of what it has under its two keys.
    pub fn of_lists(cast: &Listed, preserve: &Listed) -> (r: Result<Policy, PolicyError>)
        ensures
            match policy_in(cast@, preserve@) {
                Ok(patterns) => r is Ok && r->Ok_0@ == patterns && r->Ok_0.wf(),
                Err(e) => r is Err && r->Err_0 == e,
            },
    {
        let mut all: Vec<String> = Vec::new();
        all.push(".*".to_owned());
        assert(views(all@) =~= seq![".*"@]);
        let cast = match find_patterns(cast, all) {
            Some(p) => p,
            None => {
                return Err(PolicyError::CastNotList);
            },
        };
        match compile_all(&cast) {
            Some(_) => {},
            None => {
                return Err(PolicyError::BadPattern);
            },
        }
        let none: Vec<String> = Vec::new();
        assert(views(none@) =~= Seq::<Seq<char>>::empty());
        let preserve = match find_patterns(preserve, none) {
            Some(p) => p,
            None => {
                return Err(PolicyError::PreserveNotList);
            },
        };
        match compile_all(&preserve) {
            Some(res) => Ok(Policy { preserve_bf16: res, preserved: Ghost(views(preserve@)) }),
            None => Err(PolicyError::BadPattern),
        }
    }

    /// Whether a tensor keeps its BF16 data.
    pub fn matches_preserve(&self, name: &str) -> (r: bool)
        requires
            self.wf(),
        ensures
            r == any_matches(self@, name@),
    {
        let mut i: usize = 0;
        while i < self.preserve_bf16.len()
            invariant
                i <= self.preserve_bf16@.len(),
                self.wf(),
                forall|k: int|
                    0 <= k < i ==> !pattern_language(#[trigger] self@[k])->0.contains(name@),
            decreases self.preserve_bf16@.len() - i,
        {
            assert(pattern_language(self@[i as int]) == Some(
                regex_language(self.preserve_bf16@[i as int]),
            ));
            if is_match(&self.preserve_bf16[i], name) {
                return true;
            }
            i += 1;
        }
        false
    }
}

} // verus!
