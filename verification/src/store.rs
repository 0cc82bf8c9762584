//! Lookup of VibeVoice weights by name, whatever spelling the checkpoint uses.
use vstd::prelude::*;

use crate::gguf::{gguf_shorten, shortened_name, GgufError, GgufFile};
use crate::text::{
    chars_of, ends_with, push_all, push_str_chars, starts_with, str_eq, string_from_chars,
    strip_prefix_chars, without_prefix,
};

verus! {

/// `keys` with `k` added at the end unless it is already there.
pub open spec fn push_unique(keys: Seq<Seq<char>>, k: Seq<char>) -> Seq<Seq<char>> {
    if keys.contains(k) {
        keys
    } else {
        keys.push(k)
    }
}

/// `cands` with repeats dropped, first occurrences kept, after `acc`.
pub open spec fn dedup_into(acc: Seq<Seq<char>>, cands: Seq<Seq<char>>) -> Seq<Seq<char>>
    decreases cands.len(),
{
    if cands.len() == 0 {
        acc
    } else {
        dedup_into(push_unique(acc, cands[0]), cands.drop_first())
    }
}

/// The key without a leading `model.`.
pub open spec fn stripped_key(key: Seq<char>) -> Seq<char> {
    without_prefix(key, "model."@)
}

/// What follows `language_model.model.` or else `language_model.` at the start of the
/// stripped key.
pub open spec fn lm_rest(stripped: Seq<char>) -> Option<Seq<char>> {
    let a = "language_model.model."@;
    let b = "language_model."@;
    if a.len() <= stripped.len() && stripped.subrange(0, a.len() as int) == a {
        Some(stripped.subrange(a.len() as int, stripped.len() as int))
    } else if b.len() <= stripped.len() && stripped.subrange(0, b.len() as int) == b {
        Some(stripped.subrange(b.len() as int, stripped.len() as int))
    } else {
        None
    }
}

/// The spellings tried for `key`, in order, repeats included: the key, the key without
/// `model.`, the key with `model.` when it had none, the four language-model spellings, and
/// the three spellings of the output head.
pub open spec fn alias_candidates(key: Seq<char>) -> Seq<Seq<char>> {
    let s = stripped_key(key);
    let m = "model."@;
    let has_model = m.len() <= key.len() && key.subrange(0, m.len() as int) == m;
    let first = seq![key, s] + if has_model { Seq::empty() } else { seq![m + key] };
    let lm = match lm_rest(s) {
        Some(rest) => seq![
            "language_model.model."@ + rest,
            "language_model."@ + rest,
            "model.language_model."@ + rest,
            "model.language_model.model."@ + rest,
        ],
        None => Seq::empty(),
    };
    let h = "lm_head.weight"@;
    let is_head = s == "language_model.lm_head.weight"@ || (h.len() <= s.len() && s.subrange(
        s.len() - h.len(),
        s.len() as int,
    ) == h);
    let head = if is_head {
        seq!["lm_head.weight"@, "model.lm_head.weight"@, "language_model.lm_head.weight"@]
    } else {
        Seq::empty()
    };
    first + lm + head
}

/// The spellings tried for `key`, each once, in order.
pub open spec fn key_alias_list(key: Seq<char>) -> Seq<Seq<char>> {
    dedup_into(Seq::empty(), alias_candidates(key))
}

fn contains_key(keys: &Vec<String>, k: &Vec<char>) -> (r: bool)
    ensures
        r == keys@.map_values(|s: String| s@).contains(k@),
{
    let ghost kv = keys@.map_values(|s: String| s@);
    let mut i: usize = 0;
    while i < keys.len()
        invariant
            i <= keys@.len(),
            kv == keys@.map_values(|s: String| s@),
            forall|j: int| 0 <= j < i ==> kv[j] != k@,
        decreases keys@.len() - i,
    {
        let c = chars_of(keys[i].as_str());
        if c.len() == k.len() && crate::text::matches_at(c.as_slice(), k.as_slice(), 0) {
            assert(c@.subrange(0, k@.len() as int) == c@);
            assert(kv[i as int] == k@);
            return true;
        }
        proof {
            if c@.len() == k@.len() {
                assert(c@.subrange(0, k@.len() as int) == c@);
            }
        }
        i += 1;
    }
    proof {
        if kv.contains(k@) {
            let j = choose|j: int| 0 <= j < kv.len() && kv[j] == k@;
            assert(kv[j] != k@);
        }
    }
    false
}

fn push_unique_key(keys: &mut Vec<String>, k: Vec<char>)
    ensures
        final(keys)@.map_values(|s: String| s@) == push_unique(old(keys)@.map_values(|s: String| s@), k@),
{
    if !contains_key(keys, &k) {
        let s = string_from_chars(k.as_slice());
        keys.push(s);
        assert(keys@.map_values(|s: String| s@) =~= old(keys)@.map_values(|s: String| s@).push(k@));
    }
}

/// Concatenation of a literal and some characters.
fn cat(a: &str, b: &Vec<char>) -> (r: Vec<char>)
    ensures
        r@ == a@ + b@,
{
    let mut out: Vec<char> = Vec::new();
    push_str_chars(&mut out, a);
    push_all(&mut out, b);
    out
}

/// The spellings of a tensor key tried in turn: Transformers (`VibeVoice-ASR-HF`) and
/// original (`VibeVoice-ASR` / BitNet) layouts, each spelling once, in order.
pub fn key_aliases(key: &str) -> (res: Vec<String>)
    ensures
        res@.map_values(|s: String| s@) == key_alias_list(key@),
{
    let k = chars_of(key);
    let s = strip_prefix_chars(k.as_slice(), "model.");
    let mut cands: Vec<Vec<char>> = Vec::new();
    cands.push(k.clone());
    cands.push(s.clone());
    let m = chars_of("model.");
    if !starts_with(k.as_slice(), m.as_slice()) {
        cands.push(cat("model.", &k));
    }
    let a = chars_of("language_model.model.");
    let b = chars_of("language_model.");
    let rest = if starts_with(s.as_slice(), a.as_slice()) {
        Some(crate::text::sub_chars(s.as_slice(), a.len(), s.len()))
    } else if starts_with(s.as_slice(), b.as_slice()) {
        Some(crate::text::sub_chars(s.as_slice(), b.len(), s.len()))
    } else {
        None
    };
    match rest {
        Some(r) => {
            cands.push(cat("language_model.model.", &r));
            cands.push(cat("language_model.", &r));
            cands.push(cat("model.language_model.", &r));
            cands.push(cat("model.language_model.model.", &r));
        },
        None => {},
    }
    let full_head = chars_of("language_model.lm_head.weight");
    let h = chars_of("lm_head.weight");
    let is_full = s.len() == full_head.len() && starts_with(s.as_slice(), full_head.as_slice());
    proof {
        if s@.len() == full_head@.len() {
            assert(s@.subrange(0, full_head@.len() as int) == s@);
        }
    }
    if is_full || ends_with(s.as_slice(), h.as_slice()) {
        cands.push(chars_of("lm_head.weight"));
        cands.push(chars_of("model.lm_head.weight"));
        cands.push(chars_of("language_model.lm_head.weight"));
    }
    let ghost cv = cands@.map_values(|c: Vec<char>| c@);
    assert(cv =~= alias_candidates(key@));
    let mut keys: Vec<String> = Vec::new();
    let mut i: usize = 0;
    assert(keys@.map_values(|s: String| s@) =~= Seq::<Seq<char>>::empty());
    assert(cv.subrange(0, cv.len() as int) =~= cv);
    while i < cands.len()
        invariant
            i <= cands@.len(),
            cv == cands@.map_values(|c: Vec<char>| c@),
            dedup_into(keys@.map_values(|s: String| s@), cv.subrange(i as int, cv.len() as int))
                == dedup_into(Seq::empty(), cv),
        decreases cands@.len() - i,
    {
        let c = cands[i].clone();
        let ghost rest = cv.subrange(i as int, cv.len() as int);
        assert(rest.drop_first() =~= cv.subrange(i + 1, cv.len() as int));
        push_unique_key(&mut keys, c);
        i += 1;
    }
    assert(cv.subrange(cands@.len() as int, cv.len() as int) =~= Seq::<Seq<char>>::empty());
    keys
}


enum StoreInner {
    /// Weights in safetensors shards; the index lists the tensor names.
    Safetensors { keys: Vec<String> },
    /// Weights in one GGUF file.
    Gguf(GgufFile),
}

/// The weights of a VibeVoice checkpoint: a GGUF file when there is one, else the names of
/// the safetensors index.
pub struct VibeVoiceWeightStore {
    inner: StoreInner,
}

impl VibeVoiceWeightStore {
    /// The weights come from a GGUF file.
    pub closed spec fn is_gguf(self) -> bool {
        self.inner is Gguf
    }

    /// A tensor of this exact name is stored.
    pub closed spec fn holds(self, name: Seq<char>) -> bool {
        match self.inner {
            StoreInner::Safetensors { keys } => keys@.map_values(|s: String| s@).contains(name),
            StoreInner::Gguf(g) => exists|i: int| 0 <= i < g.entries().len() && #[trigger] g.entries()[i].0 == name,
        }
    }

    /// The stored names are exactly those of the directory `es`.
    pub open spec fn holds_names_of(self, es: Seq<crate::gguf::TensorEntry>) -> bool {
        forall|n: Seq<char>| self.holds(n) == exists|i: int| 0 <= i < es.len() && #[trigger] es[i].0 == n
    }

    /// The first of `cands` that is stored: in a GGUF file its shortened spelling, then the
    /// spelling itself.
    pub open spec fn resolve_from(self, cands: Seq<Seq<char>>) -> Option<Seq<char>>
        decreases cands.len(),
    {
        if cands.len() == 0 {
            None
        } else {
            let c = cands[0];
            if self.is_gguf() && self.holds(shortened_name(c)) {
                Some(shortened_name(c))
            } else if self.holds(c) {
                Some(c)
            } else {
                self.resolve_from(cands.drop_first())
            }
        }
    }

    /// The stored name under which `key` is found.
    pub open spec fn resolved(self, key: Seq<char>) -> Option<Seq<char>> {
        self.resolve_from(key_alias_list(key))
    }

    /// A store over the tensor names of a safetensors index.
    pub fn from_index_keys(keys: Vec<String>) -> (r: Self)
        ensures
            !r.is_gguf(),
            forall|n: Seq<char>| r.holds(n) == keys@.map_values(|s: String| s@).contains(n),
    {
        VibeVoiceWeightStore { inner: StoreInner::Safetensors { keys } }
    }

    /// A store over a GGUF file.
    pub fn from_gguf(file: GgufFile) -> (r: Self)
        ensures
            r.is_gguf(),
            r.holds_names_of(file.entries()),
    {
        let r = VibeVoiceWeightStore { inner: StoreInner::Gguf(file) };
        assert forall|n: Seq<char>| r.holds(n) == exists|i: int| 0 <= i < file.entries().len() && #[trigger] file.entries()[i].0 == n by {
            match r.inner {
                StoreInner::Gguf(g) => {
                    assert(g == file);
                },
                _ => {},
            }
        }
        r
    }

    /// Opens the weights of a checkpoint: the GGUF file when one was found (its bytes), else
    /// the names listed by the safetensors index.
    pub fn open(gguf: Option<Vec<u8>>, index_keys: Vec<String>) -> (r: Result<Self, GgufError>)
        ensures
            gguf is None ==> (r matches Ok(s) && !s.is_gguf() && forall|n: Seq<char>| s.holds(n) == index_keys@.map_values(|s: String| s@).contains(n)),
            gguf matches Some(bytes) ==> match crate::gguf::spec_parse(bytes@) {
                Err(e) => r == Err::<Self, GgufError>(e),
                Ok(es) => r matches Ok(s) && s.is_gguf() && s.holds_names_of(es),
            },
    {
        match gguf {
            Some(bytes) => {
                let ghost bv = bytes@;
                match GgufFile::from_bytes(bytes) {
                    Err(e) => Err(e),
                    Ok(f) => {
                        let s = Self::from_gguf(f);
                        assert(crate::gguf::spec_parse(bv) == Ok::<Seq<crate::gguf::TensorEntry>, GgufError>(f.entries()));
                        Ok(s)
                    },
                }
            },
            None => Ok(Self::from_index_keys(index_keys)),
        }
    }

    fn holds_name(&self, name: &str) -> (r: bool)
        ensures
            r == self.holds(name@),
    {
        match &self.inner {
            StoreInner::Safetensors { keys } => {
                let k = chars_of(name);
                contains_key(keys, &k)
            },
            StoreInner::Gguf(g) => g.has_name(name),
        }
    }

    /// The stored name under which `key` is found, trying its aliases in order.
    pub fn resolve(&self, key: &str) -> (r: Option<String>)
        ensures
            match r {
                Some(s) => self.resolved(key@) == Some(s@),
                None => self.resolved(key@) is None,
            },
    {
        let aliases = key_aliases(key);
        let ghost av = aliases@.map_values(|s: String| s@);
        let gguf = match &self.inner {
            StoreInner::Gguf(_) => true,
            StoreInner::Safetensors { .. } => false,
        };
        let mut i: usize = 0;
        assert(av.subrange(0, av.len() as int) =~= av);
        while i < aliases.len()
            invariant
                i <= aliases@.len(),
                av == aliases@.map_values(|s: String| s@),
                av == key_alias_list(key@),
                gguf == self.is_gguf(),
                self.resolve_from(av.subrange(i as int, av.len() as int)) == self.resolved(key@),
            decreases aliases@.len() - i,
        {
            let cand = &aliases[i];
            let ghost rest = av.subrange(i as int, av.len() as int);
            assert(rest[0] == cand@);
            assert(rest.drop_first() =~= av.subrange(i + 1, av.len() as int));
            if gguf {
                let short = gguf_shorten(cand.as_str());
                if self.holds_name(short.as_str()) {
                    return Some(short);
                }
            }
            if self.holds_name(cand.as_str()) {
                return Some(cand.clone());
            }
            i += 1;
        }
        None
    }

    /// Whether `key` is found under one of its spellings.
    pub fn has_key(&self, key: &str) -> (r: bool)
        ensures
            r == self.resolved(key@) is Some,
    {
        self.resolve(key).is_some()
    }
}

proof fn lemma_dedup_prefix(acc: Seq<Seq<char>>, cands: Seq<Seq<char>>)
    ensures
        dedup_into(acc, cands).len() >= acc.len(),
        dedup_into(acc, cands).subrange(0, acc.len() as int) == acc,
    decreases cands.len(),
{
    if cands.len() > 0 {
        let next = push_unique(acc, cands[0]);
        lemma_dedup_prefix(next, cands.drop_first());
        assert(next.subrange(0, acc.len() as int) =~= acc);
        assert(dedup_into(acc, cands).subrange(0, acc.len() as int) =~= dedup_into(next, cands.drop_first()).subrange(0, next.len() as int).subrange(0, acc.len() as int));
    }
}

proof fn lemma_first_alias_is_key(key: Seq<char>)
    ensures
        key_alias_list(key).len() >= 1,
        key_alias_list(key)[0] == key,
{
    let c = alias_candidates(key);
    assert(c[0] == key);
    let first = push_unique(Seq::empty(), c[0]);
    assert(first =~= seq![key]);
    lemma_dedup_prefix(first, c.drop_first());
    assert(key_alias_list(key) == dedup_into(first, c.drop_first()));
    assert(key_alias_list(key).subrange(0, 1)[0] == key);
}

/// A name that the safetensors index lists is found under that very name: it is the first
/// spelling tried.
pub proof fn lemma_listed_key_resolves_to_itself(store: VibeVoiceWeightStore, key: Seq<char>)
    requires
        !store.is_gguf(),
        store.holds(key),
    ensures
        store.resolved(key) == Some(key),
{
    lemma_first_alias_is_key(key);
    let cands = key_alias_list(key);
    assert(store.resolve_from(cands) == Some(cands[0]));
}

proof fn lemma_resolve_from_is_held(store: VibeVoiceWeightStore, cands: Seq<Seq<char>>)
    ensures
        store.resolve_from(cands) matches Some(n) ==> store.holds(n),
    decreases cands.len(),
{
    if cands.len() > 0 {
        lemma_resolve_from_is_held(store, cands.drop_first());
    }
}

/// What a key resolves to is a name the store holds: a lookup never invents a tensor.
pub proof fn lemma_resolved_is_held(store: VibeVoiceWeightStore, key: Seq<char>)
    ensures
        store.resolved(key) matches Some(n) ==> store.holds(n),
{
    lemma_resolve_from_is_held(store, key_alias_list(key));
}

} // verus!
