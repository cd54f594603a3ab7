//! The settings that the relay takes from its environment.
use vstd::hash_set::StringHashSet;
use vstd::prelude::*;

use crate::text::{part_once, parted, pieces, same_text, split_pieces, texts, trim, trimmed};

verus! {

/// A set of names.
pub type NameSet = StringHashSet;

/// The settings of the relay.
#[derive(Debug)]
pub struct RelayEnv {
    /// `CODEX_RELAY_MODEL_MAP`, where it is set.
    pub model_map: Option<String>,
    /// `CODEX_RELAY_TOOL_DENYLIST`, where it is set.
    pub tool_denylist: Option<String>,
    /// Whether the quirk `glm_thinking` is enabled.
    pub glm_thinking: bool,
    /// The model names that are known to be GLM models.
    pub glm_models: Vec<String>,
}

impl Default for RelayEnv {
    /// Nothing is set, no quirk is disabled.
    fn default() -> (r: RelayEnv)
        ensures
            r.model_map is None,
            r.tool_denylist is None,
            r.glm_thinking,
            r.glm_models@.len() == 0,
    {
        RelayEnv {
            model_map: None,
            tool_denylist: None,
            glm_thinking: true,
            glm_models: Vec::new(),
        }
    }
}

/// The names in a comma-separated list: trimmed, without the empty ones.
pub open spec fn listed_names(list: Seq<char>) -> Set<Seq<char>> {
    trimmed_names(pieces(list, ','))
}

/// The trimmed forms of some texts, without the empty one.
pub open spec fn trimmed_names(ps: Seq<Seq<char>>) -> Set<Seq<char>>
    decreases ps.len(),
{
    if ps.len() == 0 {
        Set::empty()
    } else {
        let before = trimmed_names(ps.drop_last());
        let name = trimmed(ps.last());
        if name.len() == 0 {
            before
        } else {
            before.insert(name)
        }
    }
}

impl RelayEnv {
    /// The names of the tools that never reach the upstream.
    pub open spec fn denied(self) -> Set<Seq<char>> {
        match self.tool_denylist {
            Some(list) => listed_names(list@),
            None => Set::empty(),
        }
    }

    /// The name under which the upstream knows a model.
    pub open spec fn mapped_model(self, name: Seq<char>) -> Seq<char> {
        match self.model_map {
            Some(map) => match model_target(pieces(map@, ','), name) {
                Some(target) => target,
                None => name,
            },
            None => name,
        }
    }

    /// Whether a model is known to be a GLM model.
    pub open spec fn knows_glm(self, name: Seq<char>) -> bool {
        texts(self.glm_models@).contains(name)
    }
}

/// The target of the first `source:target` pair whose source is `name`.
pub open spec fn model_target(pairs: Seq<Seq<char>>, name: Seq<char>) -> Option<Seq<char>>
    decreases pairs.len(),
{
    if pairs.len() == 0 {
        None
    } else {
        match parted(pairs[0], ':') {
            Some((from, to)) => if trimmed(from) == name {
                Some(trimmed(to))
            } else {
                model_target(pairs.drop_first(), name)
            },
            None => model_target(pairs.drop_first(), name),
        }
    }
}

/// The tool denylist of the environment.
pub fn tool_denylist_from_env(env: &RelayEnv) -> (r: NameSet)
    ensures
        r@ == env.denied(),
{
    let mut names = NameSet::new();
    match &env.tool_denylist {
        Some(list) => {
            let ps = split_pieces(list.as_str(), ',');
            let mut i: usize = 0;
            assert(texts(ps@).take(0) =~= Seq::empty());
            while i < ps.len()
                invariant
                    i <= ps@.len(),
                    names@ == trimmed_names(texts(ps@).take(i as int)),
                decreases ps.len() - i,
            {
                let name = trim(ps[i].as_str());
                assert(texts(ps@).take(i + 1).drop_last() =~= texts(ps@).take(i as int));
                if !name.is_empty() {
                    names.insert(name.to_owned());
                }
                i = i + 1;
            }
            assert(texts(ps@).take(i as int) =~= texts(ps@));
        },
        None => {},
    }
    names
}

/// Maps a model name by the `source:target` pairs of the environment: the
/// first pair for the name counts, and a name without a pair stays as it is.
pub fn map_model_name(name: &str, env: &RelayEnv) -> (r: String)
    ensures
        r@ == env.mapped_model(name@),
{
    match &env.model_map {
        Some(map) => {
            let ps = split_pieces(map.as_str(), ',');
            let mut i: usize = 0;
            assert(texts(ps@).skip(0) =~= texts(ps@));
            while i < ps.len()
                invariant
                    i <= ps@.len(),
                    texts(ps@) == pieces(map@, ','),
                    env.model_map == Some(*map),
                    model_target(texts(ps@), name@) == model_target(
                        texts(ps@).skip(i as int),
                        name@,
                    ),
                decreases ps.len() - i,
            {
                assert(texts(ps@).skip(i as int).drop_first() =~= texts(ps@).skip(i + 1));
                if let Some((from, to)) = part_once(ps[i].as_str(), ':') {
                    if same_text(trim(from.as_str()), name) {
                        return trim(to.as_str()).to_owned();
                    }
                }
                i = i + 1;
            }
            name.to_owned()
        },
        None => name.to_owned(),
    }
}

/// Whether a model is known to be a GLM model.
pub fn is_glm_like_model(name: &str, env: &RelayEnv) -> (r: bool)
    ensures
        r == env.knows_glm(name@),
{
    let mut i: usize = 0;
    while i < env.glm_models.len()
        invariant
            i <= env.glm_models@.len(),
            forall|j: int| 0 <= j < i ==> texts(env.glm_models@)[j] != name@,
        decreases env.glm_models.len() - i,
    {
        if same_text(env.glm_models[i].as_str(), name) {
            assert(texts(env.glm_models@)[i as int] == name@);
            return true;
        }
        i = i + 1;
    }
    false
}

} // verus!
