use vstd::prelude::*;

use crate::collections::Collection;
use crate::kv::{assoc_find, assoc_get, assoc_index, assoc_remove, assoc_upsert, lemma_assoc_index};
use crate::views::{lemma_vec_deep_view_index, lemma_vec_deep_view_len};

verus! {

broadcast use lemma_vec_deep_view_index, lemma_vec_deep_view_len;

/// One variable definition of an environment: key, value and whether it
/// takes part in resolution.
#[derive(Clone, Debug)]
pub struct EnvironmentItem {
    pub key: String,
    pub value: String,
    pub enable: bool,
}

/// Mathematical image of an [`EnvironmentItem`].
#[verifier::ext_equal]
pub struct EnvironmentItemImage {
    pub key: Seq<char>,
    pub value: Seq<char>,
    pub enable: bool,
}

impl DeepView for EnvironmentItem {
    type V = EnvironmentItemImage;

    open spec fn deep_view(&self) -> EnvironmentItemImage {
        EnvironmentItemImage {
            key: self.key.deep_view(),
            value: self.value.deep_view(),
            enable: self.enable,
        }
    }
}

/// A named set of variable definitions, in declaration order.
#[derive(Clone, Debug, Default)]
pub struct EnvironmentConfig {
    pub items: Vec<EnvironmentItem>,
}

impl DeepView for EnvironmentConfig {
    type V = Seq<EnvironmentItemImage>;

    open spec fn deep_view(&self) -> Seq<EnvironmentItemImage> {
        self.items.deep_view()
    }
}

/// A resolved variable: its value and the name of the environment it came
/// from.
#[derive(Clone, Debug)]
pub struct EnvironmentItemValue {
    pub value: String,
    pub scope: String,
}

/// Mathematical image of an [`EnvironmentItemValue`].
#[verifier::ext_equal]
pub struct EnvironmentValueImage {
    pub value: Seq<char>,
    pub scope: Seq<char>,
}

impl DeepView for EnvironmentItemValue {
    type V = EnvironmentValueImage;

    open spec fn deep_view(&self) -> EnvironmentValueImage {
        EnvironmentValueImage { value: self.value.deep_view(), scope: self.scope.deep_view() }
    }
}

/// The variable mapping a config's items resolve to: enabled items only,
/// taken in declaration order, a later item overriding an earlier one with
/// the same key.
pub open spec fn merged_vars(
    items: Seq<EnvironmentItemImage>,
    scope: Seq<char>,
) -> Seq<(Seq<char>, EnvironmentValueImage)>
    decreases items.len(),
{
    if items.len() == 0 {
        Seq::empty()
    } else {
        let m = merged_vars(items.drop_last(), scope);
        if items.last().enable {
            assoc_upsert(
                m,
                items.last().key,
                EnvironmentValueImage { value: items.last().value, scope: scope },
            )
        } else {
            m
        }
    }
}

/// The named environments plus which one is selected; the session's
/// variable store.
#[derive(Clone, Debug, Default)]
pub struct Environment {
    pub select: Option<String>,
    pub data: Vec<(String, EnvironmentConfig)>,
}

/// Mathematical image of an [`Environment`].
#[verifier::ext_equal]
pub struct EnvironmentImage {
    pub select: Option<Seq<char>>,
    pub data: Seq<(Seq<char>, Seq<EnvironmentItemImage>)>,
}

impl DeepView for Environment {
    type V = EnvironmentImage;

    open spec fn deep_view(&self) -> EnvironmentImage {
        EnvironmentImage { select: self.select.deep_view(), data: self.data.deep_view() }
    }
}

/// What variable resolution yields for a whole environment store: nothing
/// without a selection or with an unknown selection, else the selected
/// config's merged mapping.
pub open spec fn env_vars(e: EnvironmentImage) -> Seq<(Seq<char>, EnvironmentValueImage)> {
    match e.select {
        None => Seq::empty(),
        Some(name) => match assoc_get(e.data, name) {
            None => Seq::empty(),
            Some(items) => merged_vars(items, name),
        },
    }
}

impl Environment {
    /// An empty store with nothing selected.
    pub fn new() -> (r: Environment)
        ensures
            r.deep_view() == (EnvironmentImage { select: None, data: Seq::empty() }),
    {
        let r = Environment { select: None, data: Vec::new() };
        assert(r.deep_view() =~= (EnvironmentImage { select: None, data: Seq::empty() }));
        r
    }

    /// The name of the selected environment, if any.
    pub fn select(&self) -> (r: Option<String>)
        ensures
            r.deep_view() == self.deep_view().select,
    {
        match &self.select {
            None => None,
            Some(s) => Some(s.clone()),
        }
    }

    /// Selects an environment by name, or clears the selection. An unknown
    /// name is kept and resolves to an empty mapping until a config of that
    /// name exists.
    pub fn set_select(&mut self, select: Option<String>)
        ensures
            final(self).deep_view() == (EnvironmentImage {
                select: select.deep_view(),
                ..old(self).deep_view()
            }),
    {
        self.select = select;
        assert(self.deep_view() =~= (EnvironmentImage {
            select: self.select.deep_view(),
            ..old(self).deep_view()
        }));
    }

    /// A point-in-time copy of the named config.
    pub fn get(&self, key: String) -> (r: Option<EnvironmentConfig>)
        ensures
            match r {
                Some(c) => assoc_get(self.deep_view().data, key@) == Some(c.deep_view()),
                None => assoc_get(self.deep_view().data, key@) is None,
            },
    {
        match assoc_find(&self.data, &key) {
            Some(j) => {
                proof {
                    lemma_vec_deep_view_index(self.data, j as int);
                }
                let c = EnvironmentConfig {
                    items: clone_items(&self.data[j].1.items),
                };
                Some(c)
            },
            None => None,
        }
    }

    /// Adds or replaces the named config.
    pub fn insert(&mut self, key: String, value: EnvironmentConfig)
        ensures
            final(self).deep_view().select == old(self).deep_view().select,
            final(self).deep_view().data == assoc_upsert(
                old(self).deep_view().data,
                key@,
                value.deep_view(),
            ),
    {
        let ghost self0 = *self;
        let ghost kv = (key@, value.deep_view());
        match assoc_find(&self.data, &key) {
            Some(j) => {
                self.data.set(j, (key, value));
                proof {
                    assert forall|k: int| 0 <= k < self.data@.len() implies #[trigger] self
                        .data
                        .deep_view()[k] == self0.data.deep_view().update(j as int, kv)[k] by {
                        lemma_vec_deep_view_index(self.data, k);
                        lemma_vec_deep_view_index(self0.data, k);
                    }
                    assert(self.data.deep_view() =~= self0.data.deep_view().update(j as int, kv));
                }
            },
            None => {
                self.data.push((key, value));
                proof {
                    assert forall|k: int| 0 <= k < self.data@.len() implies #[trigger] self
                        .data
                        .deep_view()[k] == self0.data.deep_view().push(kv)[k] by {
                        lemma_vec_deep_view_index(self.data, k);
                        if k < self0.data@.len() {
                            lemma_vec_deep_view_index(self0.data, k);
                        }
                    }
                    assert(self.data.deep_view() =~= self0.data.deep_view().push(kv));
                }
            },
        }
    }

    /// Removes the named config; unknown names are a no-op.
    pub fn remove(&mut self, key: String)
        ensures
            final(self).deep_view().select == old(self).deep_view().select,
            final(self).deep_view().data == assoc_remove(old(self).deep_view().data, key@),
    {
        let ghost self0 = *self;
        match assoc_find(&self.data, &key) {
            Some(j) => {
                self.data.remove(j);
                proof {
                    assert forall|k: int| 0 <= k < self.data@.len() implies #[trigger] self
                        .data
                        .deep_view()[k] == self0.data.deep_view().remove(j as int)[k] by {
                        lemma_vec_deep_view_index(self.data, k);
                        lemma_vec_deep_view_index(self0.data, k);
                        if k >= j {
                            lemma_vec_deep_view_index(self0.data, k + 1);
                        }
                    }
                    assert(self.data.deep_view() =~= self0.data.deep_view().remove(j as int));
                }
            },
            None => {},
        }
    }

    /// An exact copy of the whole store.
    pub fn deep_copy(&self) -> (r: Environment)
        ensures
            r.deep_view() == self.deep_view(),
    {
        let select = match &self.select {
            None => None,
            Some(s) => Some(s.clone()),
        };
        let r = Environment { select, data: self.get_data() };
        assert(r.deep_view() =~= self.deep_view());
        r
    }

    /// Point-in-time copies of every config, in store order.
    pub fn get_data(&self) -> (r: Vec<(String, EnvironmentConfig)>)
        ensures
            r.deep_view() == self.deep_view().data,
    {
        let mut r: Vec<(String, EnvironmentConfig)> = Vec::new();
        let mut i: usize = 0;
        while i < self.data.len()
            invariant
                i <= self.data@.len(),
                r@.len() == i,
                forall|k: int| 0 <= k < i ==> #[trigger] r.deep_view()[k]
                    == self.data.deep_view()[k],
            decreases self.data@.len() - i,
        {
            let name = self.data[i].0.clone();
            let cfg = EnvironmentConfig { items: clone_items(&self.data[i].1.items) };
            let ghost r0 = r;
            r.push((name, cfg));
            proof {
                assert forall|k: int| 0 <= k < i + 1 implies #[trigger] r.deep_view()[k]
                    == self.data.deep_view()[k] by {
                    lemma_vec_deep_view_index(r, k);
                    lemma_vec_deep_view_index(self.data, k);
                    if k < i {
                        lemma_vec_deep_view_index(r0, k);
                    }
                }
            }
            i = i + 1;
        }
        proof {
            assert(r.deep_view() =~= self.deep_view().data);
        }
        r
    }

    /// Resolves the variable mapping of the selected environment: enabled
    /// items only, later definitions of a key overriding earlier ones. The
    /// collection argument is a hook for collection-scoped variables and
    /// does not influence the result yet.
    pub fn get_variable_hash_map(&self, collection: Option<Collection>) -> (r: Vec<
        (String, EnvironmentItemValue),
    >)
        ensures
            r.deep_view() == env_vars(self.deep_view()),
    {
        let _ = collection;
        let name = match &self.select {
            None => {
                let r: Vec<(String, EnvironmentItemValue)> = Vec::new();
                proof {
                    assert(r.deep_view() =~= env_vars(self.deep_view()));
                }
                return r;
            },
            Some(n) => n,
        };
        match assoc_find(&self.data, name) {
            None => {
                let r: Vec<(String, EnvironmentItemValue)> = Vec::new();
                proof {
                    lemma_assoc_index(self.deep_view().data, name@);
                    assert(r.deep_view() =~= env_vars(self.deep_view()));
                }
                r
            },
            Some(j) => {
                proof {
                    lemma_vec_deep_view_index(self.data, j as int);
                }
                let items = &self.data[j].1.items;
                let ghost iv = items.deep_view();
                let mut r: Vec<(String, EnvironmentItemValue)> = Vec::new();
                let mut i: usize = 0;
                proof {
                    assert(iv.subrange(0, 0) =~= Seq::<EnvironmentItemImage>::empty());
                    assert(r.deep_view() =~= merged_vars(iv.subrange(0, 0), name@));
                }
                while i < items.len()
                    invariant
                        i <= items@.len(),
                        iv == items.deep_view(),
                        r.deep_view() == merged_vars(iv.subrange(0, i as int), name@),
                    decreases items@.len() - i,
                {
                    let ghost pre = iv.subrange(0, i as int);
                    let ghost cur = iv.subrange(0, i as int + 1);
                    proof {
                        assert(cur.drop_last() =~= pre);
                        assert(cur.last() == iv[i as int]);
                        lemma_vec_deep_view_index(*items, i as int);
                    }
                    if items[i].enable {
                        let key = items[i].key.clone();
                        let val = EnvironmentItemValue {
                            value: items[i].value.clone(),
                            scope: name.clone(),
                        };
                        let ghost kvp = (key@, val.deep_view());
                        let ghost r0 = r;
                        match assoc_find(&r, &key) {
                            Some(p) => {
                                r.set(p, (key, val));
                                proof {
                                    assert forall|k: int| 0 <= k < r@.len() implies #[trigger] r
                                        .deep_view()[k] == r0.deep_view().update(p as int, kvp)[k]
                                        by {
                                        lemma_vec_deep_view_index(r, k);
                                        lemma_vec_deep_view_index(r0, k);
                                    }
                                    assert(r.deep_view() =~= r0.deep_view().update(p as int, kvp));
                                    assert(r.deep_view() =~= merged_vars(cur, name@));
                                }
                            },
                            None => {
                                r.push((key, val));
                                proof {
                                    assert forall|k: int| 0 <= k < r@.len() implies #[trigger] r
                                        .deep_view()[k] == r0.deep_view().push(kvp)[k] by {
                                        lemma_vec_deep_view_index(r, k);
                                        if k < r0@.len() {
                                            lemma_vec_deep_view_index(r0, k);
                                        }
                                    }
                                    assert(r.deep_view() =~= r0.deep_view().push(kvp));
                                    assert(r.deep_view() =~= merged_vars(cur, name@));
                                }
                            },
                        }
                    } else {
                        proof {
                            assert(r.deep_view() =~= merged_vars(cur, name@));
                        }
                    }
                    i = i + 1;
                }
                proof {
                    assert(iv.subrange(0, items@.len() as int) =~= iv);
                    assert(r.deep_view() == merged_vars(iv, name@));
                    assert(assoc_get(self.deep_view().data, name@) == Some(iv));
                }
                r
            },
        }
    }
}

/// Copies a variable-definition table row by row.
pub fn clone_items(items: &Vec<EnvironmentItem>) -> (r: Vec<EnvironmentItem>)
    ensures
        r.deep_view() == items.deep_view(),
{
    let mut r: Vec<EnvironmentItem> = Vec::new();
    let mut i: usize = 0;
    while i < items.len()
        invariant
            i <= items@.len(),
            r@.len() == i,
            forall|k: int| 0 <= k < i ==> #[trigger] r.deep_view()[k] == items.deep_view()[k],
        decreases items@.len() - i,
    {
        let it = EnvironmentItem {
            key: items[i].key.clone(),
            value: items[i].value.clone(),
            enable: items[i].enable,
        };
        let ghost r0 = r;
        r.push(it);
        proof {
            assert forall|k: int| 0 <= k < i + 1 implies #[trigger] r.deep_view()[k]
                == items.deep_view()[k] by {
                lemma_vec_deep_view_index(r, k);
                lemma_vec_deep_view_index(*items, k);
                if k < i {
                    lemma_vec_deep_view_index(r0, k);
                }
            }
        }
        i = i + 1;
    }
    proof {
        assert(r.deep_view() =~= items.deep_view());
    }
    r
}


/// The override law of environment resolution: when an enabled item is the
/// last enabled one declaring a key, resolution maps that key to exactly
/// its value — later declarations of a key override earlier ones, and
/// disabled declarations never take part.
pub proof fn lemma_later_definition_wins(
    items: Seq<EnvironmentItemImage>,
    scope: Seq<char>,
    k: Seq<char>,
    i: int,
)
    requires
        0 <= i < items.len(),
        items[i].enable,
        items[i].key == k,
        forall|j: int| i < j < items.len() ==> !((#[trigger] items[j]).key == k
            && items[j].enable),
    ensures
        assoc_get(merged_vars(items, scope), k) == Some(
            EnvironmentValueImage { value: items[i].value, scope: scope },
        ),
    decreases items.len(),
{
    let t = items.drop_last();
    if i == items.len() - 1 {
        crate::kv::lemma_assoc_upsert_get(
            merged_vars(t, scope),
            k,
            EnvironmentValueImage { value: items[i].value, scope: scope },
        );
    } else {
        assert(forall|j: int| 0 <= j < t.len() ==> t[j] == items[j]);
        lemma_later_definition_wins(t, scope, k, i);
        if items.last().enable {
            assert(items.last().key != k);
            crate::kv::lemma_assoc_get_upsert_other(
                merged_vars(t, scope),
                k,
                items.last().key,
                EnvironmentValueImage { value: items.last().value, scope: scope },
            );
        }
    }
}

} // verus!
