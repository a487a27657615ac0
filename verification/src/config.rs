//! The kubelet-style configuration document: an ordered key-value document
//! with nested maps and string/bool leaves.  The swap orchestrator patches
//! such a document to enable limited swap while preserving every unrelated
//! key; the surrounding binary is responsible only for moving the document
//! between this representation and its on-disk serialization.

use vstd::prelude::*;

verus! {

/// A structured value in a configuration document.  Values this library never
/// inspects round-trip through `Raw`, which carries their serialized text.
#[derive(Debug, PartialEq)]
pub enum ConfigValue {
    Bool(bool),
    Str(String),
    Mapping(Vec<(String, ConfigValue)>),
    Raw(String),
}

/// An ordered key-value document.
#[derive(Debug, PartialEq)]
pub struct ConfigDoc {
    pub entries: Vec<(String, ConfigValue)>,
}

/// The value bound to `k`: the first entry whose key reads `k`, if any.
pub open spec fn doc_lookup(s: Seq<(String, ConfigValue)>, k: Seq<char>) -> Option<ConfigValue>
    decreases s.len(),
{
    if s.len() == 0 {
        None
    } else if s[0].0@ == k {
        Some(s[0].1)
    } else {
        doc_lookup(s.drop_first(), k)
    }
}

/// No two entries share a key.
pub open spec fn doc_wf(s: Seq<(String, ConfigValue)>) -> bool {
    forall|i: int, j: int| 0 <= i < j < s.len() ==> s[i].0@ != s[j].0@
}

proof fn lemma_doc_lookup_at(s: Seq<(String, ConfigValue)>, k: Seq<char>, i: int)
    requires
        0 <= i <= s.len(),
        forall|j: int| 0 <= j < i ==> s[j].0@ != k,
        i < s.len() ==> s[i].0@ == k,
    ensures
        doc_lookup(s, k) == if i < s.len() {
            Some(s[i].1)
        } else {
            None::<ConfigValue>
        },
    decreases i,
{
    if i == 0 {
        if s.len() > 0 && s[0].0@ != k {
            lemma_doc_lookup_at(s.drop_first(), k, 0);
        }
    } else {
        assert forall|j: int| 0 <= j < i - 1 implies s.drop_first()[j].0@ != k by {
            assert(s.drop_first()[j] == s[j + 1]);
        }
        lemma_doc_lookup_at(s.drop_first(), k, i - 1);
    }
}

proof fn lemma_doc_lookup_update(
    s: Seq<(String, ConfigValue)>,
    i: int,
    p: (String, ConfigValue),
    k2: Seq<char>,
)
    requires
        0 <= i < s.len(),
        forall|j: int| 0 <= j < i ==> s[j].0@ != s[i].0@,
        p.0@ == s[i].0@,
    ensures
        doc_lookup(s.update(i, p), k2) == if k2 == s[i].0@ {
            Some(p.1)
        } else {
            doc_lookup(s, k2)
        },
    decreases i,
{
    if i == 0 {
        assert(s.update(0, p).drop_first() =~= s.drop_first());
    } else {
        assert(s.update(i, p).drop_first() =~= s.drop_first().update(i - 1, p));
        assert forall|j: int| 0 <= j < i - 1 implies (#[trigger] s.drop_first()[j]).0@
            != s.drop_first()[i - 1].0@ by {
            assert(s.drop_first()[j] == s[j + 1]);
        }
        lemma_doc_lookup_update(s.drop_first(), i - 1, p, k2);
    }
}

proof fn lemma_doc_lookup_push(s: Seq<(String, ConfigValue)>, p: (String, ConfigValue), k2: Seq<char>)
    requires
        forall|j: int| 0 <= j < s.len() ==> s[j].0@ != p.0@,
    ensures
        doc_lookup(s.push(p), k2) == if k2 == p.0@ {
            Some(p.1)
        } else {
            doc_lookup(s, k2)
        },
    decreases s.len(),
{
    if s.len() == 0 {
        assert(s.push(p)[0] == p);
        if k2 != p.0@ {
            assert(doc_lookup(s.push(p), k2) == doc_lookup(s.push(p).drop_first(), k2));
        }
    } else {
        assert(s.push(p).drop_first() =~= s.drop_first().push(p));
        assert forall|j: int| 0 <= j < s.drop_first().len() implies s.drop_first()[j].0@ != p.0@ by {
            assert(s.drop_first()[j] == s[j + 1]);
        }
        lemma_doc_lookup_push(s.drop_first(), p, k2);
    }
}

impl ConfigDoc {
    /// An empty document, the starting point when no config file exists yet.
    pub fn new() -> (d: ConfigDoc)
        ensures
            d.entries@.len() == 0,
            doc_wf(d.entries@),
    {
        ConfigDoc { entries: Vec::new() }
    }

    /// Index of the first entry whose key reads `key@`, or the entry count.
    fn find_index(&self, key: &String) -> (i: usize)
        ensures
            0 <= i <= self.entries@.len(),
            forall|j: int| 0 <= j < i ==> self.entries@[j].0@ != key@,
            i < self.entries@.len() ==> self.entries@[i as int].0@ == key@,
            doc_lookup(self.entries@, key@) == if i < self.entries@.len() {
                Some(self.entries@[i as int].1)
            } else {
                None::<ConfigValue>
            },
    {
        let n = self.entries.len();
        let mut i: usize = 0;
        loop
            invariant
                0 <= i <= n,
                n == self.entries@.len(),
                forall|j: int| 0 <= j < i ==> self.entries@[j].0@ != key@,
            ensures
                0 <= i <= n,
                forall|j: int| 0 <= j < i ==> self.entries@[j].0@ != key@,
                i < n ==> self.entries@[i as int].0@ == key@,
            decreases n - i,
        {
            if i >= n {
                break;
            }
            if self.entries[i].0 == *key {
                break;
            }
            i = i + 1;
        }
        proof {
            lemma_doc_lookup_at(self.entries@, key@, i as int);
        }
        i
    }

    /// The value bound to `key`, if any.
    pub fn get_value<'a>(&'a self, key: &String) -> (r: Option<&'a ConfigValue>)
        ensures
            match r {
                Some(v) => doc_lookup(self.entries@, key@) == Some(*v),
                None => doc_lookup(self.entries@, key@) is None,
            },
    {
        let i = self.find_index(key);
        if i < self.entries.len() {
            Some(&self.entries[i].1)
        } else {
            None
        }
    }

    /// Bind `key` to `value`, overriding an existing binding in place and
    /// appending a new entry otherwise.  Every other key keeps its value.
    pub fn insert_value(&mut self, key: &String, value: ConfigValue)
        ensures
            doc_lookup(final(self).entries@, key@) == Some(value),
            forall|k2: Seq<char>| k2 != key@ ==> doc_lookup(final(self).entries@, k2)
                == doc_lookup(old(self).entries@, k2),
            doc_wf(old(self).entries@) ==> doc_wf(final(self).entries@),
    {
        let i = self.find_index(key);
        if i < self.entries.len() {
            let ghost s0 = self.entries@;
            let k = self.entries[i].0.clone();
            proof {
                assert(k@ == s0[i as int].0@);
            }
            self.entries[i] = (k, value);
            proof {
                assert(self.entries@ =~= s0.update(i as int, (k, value)));
                assert forall|k2: Seq<char>| true implies doc_lookup(self.entries@, k2) == (if k2
                    == s0[i as int].0@ {
                    Some(value)
                } else {
                    doc_lookup(s0, k2)
                }) by {
                    lemma_doc_lookup_update(s0, i as int, (k, value), k2);
                }
                if doc_wf(s0) {
                    assert forall|a: int, b: int|
                        0 <= a < b < self.entries@.len() implies self.entries@[a].0@
                        != self.entries@[b].0@ by {
                        assert(self.entries@[a].0@ == s0[a].0@);
                        assert(self.entries@[b].0@ == s0[b].0@);
                    }
                }
            }
        } else {
            let ghost s0 = self.entries@;
            let kc = key.clone();
            let ghost p = (kc, value);
            self.entries.push((kc, value));
            proof {
                assert forall|k2: Seq<char>| true implies doc_lookup(self.entries@, k2) == (if k2
                    == key@ {
                    Some(value)
                } else {
                    doc_lookup(s0, k2)
                }) by {
                    lemma_doc_lookup_push(s0, p, k2);
                    assert(self.entries@ == s0.push(p));
                }
                if doc_wf(s0) {
                    assert forall|a: int, b: int|
                        0 <= a < b < self.entries@.len() implies self.entries@[a].0@
                        != self.entries@[b].0@ by {
                        if b < s0.len() {
                            assert(self.entries@[a] == s0[a]);
                            assert(self.entries@[b] == s0[b]);
                        } else {
                            assert(self.entries@[a] == s0[a]);
                            assert(self.entries@[b].0@ == key@);
                        }
                    }
                }
            }
        }
    }

    /// Bind `key` to `value` only when the document has no binding for it:
    /// an operator-supplied value is never overridden.
    pub fn ensure_value(&mut self, key: &String, value: ConfigValue)
        ensures
            doc_lookup(final(self).entries@, key@) == if doc_lookup(old(self).entries@, key@)
                is Some {
                doc_lookup(old(self).entries@, key@)
            } else {
                Some(value)
            },
            forall|k2: Seq<char>| k2 != key@ ==> doc_lookup(final(self).entries@, k2)
                == doc_lookup(old(self).entries@, k2),
            doc_wf(old(self).entries@) ==> doc_wf(final(self).entries@),
    {
        let i = self.find_index(key);
        if i >= self.entries.len() {
            let ghost s0 = self.entries@;
            let kc = key.clone();
            let ghost p = (kc, value);
            self.entries.push((kc, value));
            proof {
                assert forall|k2: Seq<char>| true implies doc_lookup(self.entries@, k2) == (if k2
                    == key@ {
                    Some(value)
                } else {
                    doc_lookup(s0, k2)
                }) by {
                    lemma_doc_lookup_push(s0, p, k2);
                    assert(self.entries@ == s0.push(p));
                }
                if doc_wf(s0) {
                    assert forall|a: int, b: int|
                        0 <= a < b < self.entries@.len() implies self.entries@[a].0@
                        != self.entries@[b].0@ by {
                        if b < s0.len() {
                            assert(self.entries@[a] == s0[a]);
                            assert(self.entries@[b] == s0[b]);
                        } else {
                            assert(self.entries@[a] == s0[a]);
                            assert(self.entries@[b].0@ == key@);
                        }
                    }
                }
            }
        }
    }
}

/// What the patched document binds to `kind` when the input bound nothing.
pub open spec fn default_kind() -> Seq<char> {
    "KubeletConfiguration"@
}

/// What the patched document binds to `apiVersion` when the input bound
/// nothing.
pub open spec fn default_api_version() -> Seq<char> {
    "kubelet.config.k8s.io/v1beta1"@
}

/// The four keys the patch writes; every other key passes through unchanged.
pub open spec fn patched_keys() -> Set<Seq<char>> {
    set!["kind"@, "apiVersion"@, "failSwapOn"@, "memorySwap"@]
}

/// Whether `new` is `old_doc` patched for swap enablement: both discriminator
/// keys present (kept when the operator supplied them), swap protection
/// disabled, the swap-behavior object set to limited swap, and everything
/// else preserved.
pub open spec fn patched_for_swap(
    old_doc: Seq<(String, ConfigValue)>,
    new: Seq<(String, ConfigValue)>,
) -> bool {
    &&& (match doc_lookup(old_doc, "kind"@) {
        Some(v) => doc_lookup(new, "kind"@) == Some(v),
        None => doc_lookup(new, "kind"@) matches Some(ConfigValue::Str(s)) && s@ == default_kind(),
    })
    &&& (match doc_lookup(old_doc, "apiVersion"@) {
        Some(v) => doc_lookup(new, "apiVersion"@) == Some(v),
        None => doc_lookup(new, "apiVersion"@) matches Some(ConfigValue::Str(s)) && s@
            == default_api_version(),
    })
    &&& doc_lookup(new, "failSwapOn"@) matches Some(ConfigValue::Bool(b)) && b == false
    &&& doc_lookup(new, "memorySwap"@) matches Some(ConfigValue::Mapping(m)) && m@.len() == 1
        && m@[0].0@ == "swapBehavior"@ && (m@[0].1 matches ConfigValue::Str(s) && s@
        == "LimitedSwap"@)
    &&& forall|k: Seq<char>| !patched_keys().contains(k) ==> doc_lookup(new, k) == doc_lookup(
        old_doc,
        k,
    )
}

/// Patch a configuration document for swap enablement, as `patched_for_swap`
/// describes.  Starting from an empty document builds a fresh config holding
/// exactly the discriminators and the swap keys.
pub fn patch_kubelet_config(doc: ConfigDoc) -> (r: ConfigDoc)
    ensures
        patched_for_swap(doc.entries@, r.entries@),
        doc_wf(doc.entries@) ==> doc_wf(r.entries@),
{
    let mut d = doc;
    let k_kind: String = String::from_str("kind");
    let k_api: String = String::from_str("apiVersion");
    let k_fail: String = String::from_str("failSwapOn");
    let k_mem: String = String::from_str("memorySwap");
    d.ensure_value(&k_kind, ConfigValue::Str(String::from_str("KubeletConfiguration")));
    d.ensure_value(
        &k_api,
        ConfigValue::Str(String::from_str("kubelet.config.k8s.io/v1beta1")),
    );
    d.insert_value(&k_fail, ConfigValue::Bool(false));
    let mut behavior: Vec<(String, ConfigValue)> = Vec::new();
    behavior.push(
        (String::from_str("swapBehavior"), ConfigValue::Str(String::from_str("LimitedSwap"))),
    );
    d.insert_value(&k_mem, ConfigValue::Mapping(behavior));
    proof {
        reveal_strlit("kind");
        reveal_strlit("apiVersion");
        reveal_strlit("failSwapOn");
        reveal_strlit("memorySwap");
        assert("kind"@.len() == 4 && "apiVersion"@.len() == 10 && "failSwapOn"@.len() == 10
            && "memorySwap"@.len() == 10);
        assert("apiVersion"@[0] == 'a' && "failSwapOn"@[0] == 'f' && "memorySwap"@[0] == 'm');
        assert(k_kind@ != k_api@ && k_kind@ != k_fail@ && k_kind@ != k_mem@);
        assert(k_api@ != k_fail@ && k_api@ != k_mem@);
        assert(k_fail@ != k_mem@);
    }
    d
}

} // verus!
