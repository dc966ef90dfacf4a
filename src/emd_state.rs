use vstd::prelude::*;

use core::ops::Range;

use crate::config::{names_of, Config, ConfigError};
use crate::sources::{Mod, ModSource};
use crate::version::{chars_of, same_text, VersionMatcher};

verus! {

/// Why a job cannot start.
#[derive(PartialEq, Eq, Structural, Clone, Copy, Debug)]
pub enum InitError {
    /// The configuration itself is unusable.
    Config(ConfigError),
    /// The configuration asks for zero workers.
    ZeroConcurrency,
    /// The destination directory does not exist.
    MissingDestination,
}

/// A mod as a plain value: its name and its registry.
pub open spec fn mod_ref(m: Mod) -> (Seq<char>, ModSource) {
    (m.name_spec(), m.source_spec())
}

/// A list of mods as plain values.
pub open spec fn mod_refs(s: Seq<Mod>) -> Seq<(Seq<char>, ModSource)> {
    s.map_values(|m: Mod| mod_ref(m))
}

/// Names tagged with the registry they come from.
pub open spec fn tagged(names: Seq<String>, source: ModSource) -> Seq<(Seq<char>, ModSource)> {
    names.map_values(|n: String| (n@, source))
}

/// The mods a configuration names: the Modrinth ones first, then the GitHub ones.
pub open spec fn configured_mods(c: Config) -> Seq<(Seq<char>, ModSource)> {
    tagged(names_of(c.modrinth), ModSource::Modrinth) + tagged(
        names_of(c.github),
        ModSource::Github,
    )
}

/// How many workers a machine with `cpus` logical CPUs gets when the job does not say.
pub open spec fn worker_count_spec(cpus: int) -> int {
    if cpus >= 10 {
        6
    } else if cpus >= 6 {
        4
    } else if cpus >= 2 {
        2
    } else {
        1
    }
}

/// Relies on `num_cpus::get`: the number of logical CPUs this process may use, which its
/// documentation says is always at least one.
#[verifier::external_body]
fn available_cpus() -> (r: usize)
    ensures
        r >= 1,
{
    num_cpus::get()
}

/// The worker count for a machine with `cpus` logical CPUs.
pub fn worker_count_for(cpus: usize) -> (r: usize)
    ensures
        r == worker_count_spec(cpus as int),
{
    if cpus >= 10 {
        6
    } else if cpus >= 6 {
        4
    } else if cpus >= 2 {
        2
    } else {
        1
    }
}

/// The name with everything up to and including its first `/` removed, if it has one.
pub open spec fn strip_owner(s: Seq<char>) -> Seq<char> {
    strip_owner_from(s, 0)
}

/// `strip_owner`, looking for the first `/` at index `i` or later.
pub open spec fn strip_owner_from(s: Seq<char>, i: int) -> Seq<char>
    decreases s.len() - i,
{
    if i < 0 || i >= s.len() {
        s
    } else if s[i] == '/' {
        s.subrange(i + 1, s.len() as int)
    } else {
        strip_owner_from(s, i + 1)
    }
}

/// What `str::to_lowercase` returns for a string.
pub uninterp spec fn lower_of(s: Seq<char>) -> Seq<char>;

/// Relies on `str::to_lowercase`: the lowercase form of `s`, which depends on its characters
/// alone.
#[verifier::external_body]
fn lowercase(s: &str) -> (r: String)
    ensures
        r@ == lower_of(s@),
{
    s.to_lowercase()
}

/// The key under which two mods count as the same: the name without its owner, lowercased.
pub open spec fn dedup_key_spec(name: Seq<char>) -> Seq<char> {
    lower_of(strip_owner(name))
}

/// The key under which two mods count as the same.
pub fn dedup_key(name: &str) -> (r: String)
    ensures
        r@ == dedup_key_spec(name@),
{
    let s = chars_of(name);
    let mut i: usize = 0;
    while i < s.len()
        invariant
            s@ == name@,
            i <= s@.len(),
            strip_owner_from(s@, i as int) == strip_owner(s@),
        decreases s.len() - i,
    {
        if s[i] == '/' {
            return lowercase(name.substring_char(i + 1, s.len()));
        }
        i += 1;
    }
    lowercase(name)
}

/// No key before index `i` equals the key at `i`.
pub open spec fn is_first_key(keys: Seq<Seq<char>>, i: int) -> bool {
    forall|j: int| 0 <= j < i ==> keys[j] != keys[i]
}

/// The items among the first `n` whose key is the first of its kind, in order.
pub open spec fn kept<T>(items: Seq<T>, keys: Seq<Seq<char>>, n: int) -> Seq<T>
    decreases n,
{
    if n <= 0 {
        Seq::empty()
    } else if is_first_key(keys, n - 1) {
        kept(items, keys, n - 1).push(items[n - 1])
    } else {
        kept(items, keys, n - 1)
    }
}

/// The items among the first `n` whose key was seen before, in order.
pub open spec fn dropped<T>(items: Seq<T>, keys: Seq<Seq<char>>, n: int) -> Seq<T>
    decreases n,
{
    if n <= 0 {
        Seq::empty()
    } else if is_first_key(keys, n - 1) {
        dropped(items, keys, n - 1)
    } else {
        dropped(items, keys, n - 1).push(items[n - 1])
    }
}

/// The dedup keys of a list of mods.
pub open spec fn dedup_keys(mods: Seq<Mod>) -> Seq<Seq<char>> {
    mods.map_values(|m: Mod| dedup_key_spec(m.name_spec()))
}

/// No two mods of the list share a dedup key.
pub open spec fn keys_distinct(mods: Seq<Mod>) -> bool {
    forall|a: int, b: int|
        0 <= a < b < mods.len() ==> dedup_keys(mods)[a] != dedup_keys(mods)[b]
}

proof fn lemma_kept_keys_distinct(keys: Seq<Seq<char>>, n: int)
    requires
        0 <= n <= keys.len(),
    ensures
        forall|a: int|
            0 <= a < kept(keys, keys, n).len() ==> exists|j: int|
                0 <= j < n && #[trigger] kept(keys, keys, n)[a] == keys[j],
        forall|a: int, b: int|
            0 <= a < b < kept(keys, keys, n).len() ==> kept(keys, keys, n)[a] != kept(
                keys,
                keys,
                n,
            )[b],
    decreases n,
{
    if n > 0 {
        lemma_kept_keys_distinct(keys, n - 1);
        let prev = kept(keys, keys, n - 1);
        let cur = kept(keys, keys, n);
        if is_first_key(keys, n - 1) {
            assert(cur == prev.push(keys[n - 1]));
            assert forall|a: int| 0 <= a < cur.len() implies exists|j: int|
                0 <= j < n && #[trigger] cur[a] == keys[j] by {
                if a < prev.len() {
                    assert(cur[a] == prev[a]);
                    let j = choose|j: int| 0 <= j < n - 1 && prev[a] == keys[j];
                    assert(cur[a] == keys[j]);
                } else {
                    assert(cur[a] == keys[n - 1]);
                }
            }
            assert forall|a: int, b: int| 0 <= a < b < cur.len() implies cur[a] != cur[b] by {
                if b == cur.len() - 1 {
                    assert(cur[a] == prev[a]);
                    let j = choose|j: int| 0 <= j < n - 1 && prev[a] == keys[j];
                    assert(keys[j] != keys[n - 1]);
                } else {
                    assert(cur[a] == prev[a] && cur[b] == prev[b]);
                }
            }
        }
    }
}

proof fn lemma_kept_keys(items: Seq<Mod>, n: int)
    requires
        0 <= n <= items.len(),
    ensures
        dedup_keys(kept(items, dedup_keys(items), n)) == kept(
            dedup_keys(items),
            dedup_keys(items),
            n,
        ),
    decreases n,
{
    if n > 0 {
        lemma_kept_keys(items, n - 1);
        let ks = dedup_keys(items);
        if is_first_key(ks, n - 1) {
            let prev = kept(items, ks, n - 1);
            assert(dedup_keys(prev.push(items[n - 1])) =~= dedup_keys(prev).push(ks[n - 1]));
        }
    }
}

/// The views of a list of strings.
pub open spec fn texts(s: Seq<String>) -> Seq<Seq<char>> {
    s.map_values(|k: String| k@)
}

fn key_seen_before(keys: &Vec<String>, i: usize) -> (r: bool)
    requires
        i < keys@.len(),
    ensures
        r == !is_first_key(texts(keys@), i as int),
{
    let mut j: usize = 0;
    while j < i
        invariant
            j <= i < keys@.len(),
            forall|k: int| 0 <= k < j ==> texts(keys@)[k] != texts(keys@)[i as int],
        decreases i - j,
    {
        if same_text(keys[j].as_str(), keys[i].as_str()) {
            assert(texts(keys@)[j as int] == texts(keys@)[i as int]);
            return true;
        }
        j += 1;
    }
    false
}

/// Splits `mods` into those whose key (`keys[i]` for `mods[i]`) is the first of its kind, and
/// the others, both in their original order.
pub fn drop_duplicates(mods: Vec<Mod>, keys: &Vec<String>) -> (r: (Vec<Mod>, Vec<Mod>))
    requires
        keys@.len() == mods@.len(),
    ensures
        r.0@ == kept(mods@, texts(keys@), mods@.len() as int),
        r.1@ == dropped(mods@, texts(keys@), mods@.len() as int),
{
    let ghost orig = mods@;
    let n = mods.len();
    let mut rest = mods;
    let mut keep: Vec<Mod> = Vec::new();
    let mut drop: Vec<Mod> = Vec::new();
    let mut i: usize = 0;
    while i < n
        invariant
            n == orig.len(),
            keys@.len() == n,
            i <= n,
            rest@ == orig.subrange(i as int, n as int),
            keep@ == kept(orig, texts(keys@), i as int),
            drop@ == dropped(orig, texts(keys@), i as int),
        decreases n - i,
    {
        let m = rest.remove(0);
        assert(m == orig[i as int]);
        if key_seen_before(keys, i) {
            drop.push(m);
        } else {
            keep.push(m);
        }
        i += 1;
        proof {
            assert(rest@ == orig.subrange(i as int, n as int));
        }
    }
    (keep, drop)
}

/// `slice_indices` hands out a single slice for `len` items and `conc` workers.
pub open spec fn single_slice(len: int, conc: int) -> bool {
    len < conc && len < 3
}

/// Where slice `i` starts when `len` items are spread over `conc` workers: each slice holds
/// `len / conc` items, and the first `len % conc` slices one more.
pub open spec fn slice_start(len: int, conc: int, i: int) -> int {
    i * (len / conc) + if i < len % conc {
        i
    } else {
        len % conc
    }
}

/// The number of items of slice `i`.
pub open spec fn slice_size(len: int, conc: int, i: int) -> int {
    slice_start(len, conc, i + 1) - slice_start(len, conc, i)
}

proof fn lemma_slice_step(len: int, conc: int, i: int)
    requires
        0 <= len,
        1 <= conc,
        0 <= i,
    ensures
        slice_start(len, conc, i + 1) == slice_start(len, conc, i) + len / conc + if i < len
            % conc {
            1int
        } else {
            0int
        },
{
    assert((i + 1) * (len / conc) == i * (len / conc) + len / conc) by (nonlinear_arith);
}

proof fn lemma_slice_start_bounded(len: int, conc: int, i: int)
    requires
        0 <= len,
        1 <= conc,
        0 <= i <= conc,
    ensures
        0 <= slice_start(len, conc, i) <= len,
        slice_start(len, conc, conc) == len,
        slice_start(len, conc, 0) == 0,
{
    let q = len / conc;
    let r = len % conc;
    assert(len == conc * q + r) by {
        vstd::arithmetic::div_mod::lemma_fundamental_div_mod(len, conc);
    }
    assert(0 <= r < conc);
    assert(0 <= q);
    assert(i * q <= conc * q) by (nonlinear_arith)
        requires
            0 <= i <= conc,
            0 <= q,
    ;
    assert(0 <= i * q) by (nonlinear_arith)
        requires
            0 <= i,
            0 <= q,
    ;
}

/// `r` holds the work slices for `len` items and `conc` workers: one slice `[0, len)` for a
/// small job, else `conc` slices, slice `i` from `slice_start(i)` to `slice_start(i + 1)`.
pub open spec fn slices_spec(len: int, conc: int, r: Seq<Range<usize>>) -> bool {
    if single_slice(len, conc) {
        r.len() == 1 && r[0].start == 0 && r[0].end == len
    } else {
        r.len() == conc && forall|i: int|
            0 <= i < conc ==> (#[trigger] r[i]).start == slice_start(len, conc, i) && r[i].end
                == slice_start(len, conc, i + 1)
    }
}

/// The index ranges of the work slices for `len` items and `concurrency` workers.
pub fn slice_indices(len: usize, concurrency: usize) -> (r: Vec<Range<usize>>)
    requires
        concurrency >= 1,
    ensures
        slices_spec(len as int, concurrency as int, r@),
{
    if len < concurrency && len < 3 {
        let mut single: Vec<Range<usize>> = Vec::new();
        single.push(0..len);
        return single;
    }
    let base = len / concurrency;
    let extra = len % concurrency;
    let mut slices: Vec<Range<usize>> = Vec::new();
    let mut c: usize = 0;
    let mut nth: usize = 0;
    while nth < concurrency
        invariant
            concurrency >= 1,
            base == len / concurrency,
            extra == len % concurrency,
            nth <= concurrency,
            c == slice_start(len as int, concurrency as int, nth as int),
            slices@.len() == nth,
            forall|i: int|
                0 <= i < nth ==> (#[trigger] slices@[i]).start == slice_start(
                    len as int,
                    concurrency as int,
                    i,
                ) && slices@[i].end == slice_start(len as int, concurrency as int, i + 1),
        decreases concurrency - nth,
    {
        proof {
            lemma_slice_step(len as int, concurrency as int, nth as int);
            lemma_slice_start_bounded(len as int, concurrency as int, nth as int + 1);
        }
        let n = if nth < extra {
            c + base + 1
        } else {
            c + base
        };
        slices.push(c..n);
        c = n;
        nth += 1;
    }
    slices
}

/// The law of the work partition: with `concurrency` workers and `len` items, the slices
/// follow one another from 0 to `len` with no gap and no overlap, and their sizes never grow
/// from one slice to the next and differ by at most one.
pub proof fn lemma_slices_partition(len: usize, concurrency: usize)
    requires
        concurrency >= 1,
    ensures
        slice_start(len as int, concurrency as int, 0) == 0,
        slice_start(len as int, concurrency as int, concurrency as int) == len,
        forall|i: int|
            0 <= i < concurrency ==> 0 <= #[trigger] slice_size(
                len as int,
                concurrency as int,
                i,
            ),
        forall|i: int, j: int|
            #![trigger slice_size(len as int, concurrency as int, i),
                slice_size(len as int, concurrency as int, j)]
            0 <= i <= j < concurrency ==> slice_size(len as int, concurrency as int, j)
                <= slice_size(len as int, concurrency as int, i) <= slice_size(
                len as int,
                concurrency as int,
                j,
            ) + 1,
{
    lemma_slice_start_bounded(len as int, concurrency as int, 0);
    assert forall|i: int| 0 <= i < concurrency implies slice_size(
        len as int,
        concurrency as int,
        i,
    ) == (len as int) / (concurrency as int) + if i < (len as int) % (concurrency as int) {
        1int
    } else {
        0int
    } by {
        lemma_slice_step(len as int, concurrency as int, i);
    }
    assert((len as int) / (concurrency as int) >= 0);
}

/// The items of the first `k` slices of `s` over `conc` workers, one slice after the other.
pub open spec fn joined_slices<T>(s: Seq<T>, conc: int, k: int) -> Seq<T>
    decreases k,
{
    if k <= 0 {
        Seq::empty()
    } else {
        joined_slices(s, conc, k - 1) + s.subrange(
            slice_start(s.len() as int, conc, k - 1),
            slice_start(s.len() as int, conc, k),
        )
    }
}

proof fn lemma_joined_prefix<T>(s: Seq<T>, conc: int, k: int)
    requires
        1 <= conc,
        0 <= k <= conc,
    ensures
        joined_slices(s, conc, k) == s.subrange(0, slice_start(s.len() as int, conc, k)),
    decreases k,
{
    let len = s.len() as int;
    lemma_slice_start_bounded(len, conc, k);
    if k > 0 {
        lemma_joined_prefix(s, conc, k - 1);
        lemma_slice_start_bounded(len, conc, k - 1);
        lemma_slice_step(len, conc, k - 1);
        assert(len / conc >= 0);
        assert(s.subrange(0, slice_start(len, conc, k - 1)) + s.subrange(
            slice_start(len, conc, k - 1),
            slice_start(len, conc, k),
        ) =~= s.subrange(0, slice_start(len, conc, k)));
    } else {
        assert(s.subrange(0, 0) =~= Seq::<T>::empty());
    }
}

/// The law of the work partition on a list: taking the slices of `s` one after the other
/// gives `s` back, with every item once and in order.
pub proof fn lemma_slices_rejoin<T>(s: Seq<T>, concurrency: usize)
    requires
        concurrency >= 1,
    ensures
        joined_slices(s, concurrency as int, concurrency as int) == s,
{
    lemma_joined_prefix(s, concurrency as int, concurrency as int);
    lemma_slice_start_bounded(s.len() as int, concurrency as int, concurrency as int);
    assert(s.subrange(0, s.len() as int) =~= s);
}

/// The job: what to fetch, for which game version and loader, with how many workers, and
/// where to put the files.
pub struct EmdState {
    mod_loader: String,
    mod_list: Vec<Mod>,
    concurrency: usize,
    destination: String,
    version: VersionMatcher,
}

impl EmdState {
    pub closed spec fn loader_spec(&self) -> Seq<char> {
        self.mod_loader@
    }

    pub closed spec fn mods_spec(&self) -> Seq<Mod> {
        self.mod_list@
    }

    pub closed spec fn concurrency_spec(&self) -> int {
        self.concurrency as int
    }

    pub closed spec fn destination_spec(&self) -> Seq<char> {
        self.destination@
    }

    pub closed spec fn version_spec(&self) -> VersionMatcher {
        self.version
    }

    /// A job has at least one worker.
    pub open spec fn wf(&self) -> bool {
        self.concurrency_spec() >= 1
    }

    /// The worker count for this machine, from its number of logical CPUs.
    pub fn determine_worker_count() -> (r: usize)
        ensures
            exists|cpus: int| cpus >= 1 && r == worker_count_spec(cpus),
    {
        let cpus = available_cpus();
        worker_count_for(cpus)
    }

    /// The job a configuration describes, given whether its destination directory exists.
    pub fn init(config: Config, destination_exists: bool) -> (r: Result<EmdState, InitError>)
        ensures
            match config.error_spec() {
                Some(e) => r == Err::<EmdState, InitError>(InitError::Config(e)),
                None => if config.concurrency == Some(0usize) {
                    r == Err::<EmdState, InitError>(InitError::ZeroConcurrency)
                } else if !destination_exists {
                    r == Err::<EmdState, InitError>(InitError::MissingDestination)
                } else {
                    r matches Ok(s) && {
                        &&& s.wf()
                        &&& mod_refs(s.mods_spec()) == configured_mods(config)
                        &&& s.loader_spec() == config.loader->0@
                        &&& s.destination_spec() == match config.destination {
                            Some(d) => d@,
                            None => seq!['.'],
                        }
                        &&& VersionMatcher::new_spec(config.mc_version->0@, s.version_spec())
                        &&& match config.concurrency {
                            Some(c) => s.concurrency_spec() == c,
                            None => exists|cpus: int|
                                cpus >= 1 && s.concurrency_spec() == worker_count_spec(cpus),
                        }
                    }
                },
            },
    {
        if let Err(e) = config.validate() {
            return Err(InitError::Config(e));
        }
        if let Some(c) = config.concurrency {
            if c == 0 {
                return Err(InitError::ZeroConcurrency);
            }
        }
        if !destination_exists {
            return Err(InitError::MissingDestination);
        }
        let destination = config.destination_dir();
        let version = match &config.mc_version {
            Some(v) => match VersionMatcher::new(v.as_str()) {
                Some(m) => m,
                None => return Err(InitError::Config(ConfigError::InvalidVersion)),
            },
            None => return Err(InitError::Config(ConfigError::MissingVersion)),
        };
        let mod_loader = match &config.loader {
            Some(l) => l.clone(),
            None => return Err(InitError::Config(ConfigError::MissingLoader)),
        };
        let concurrency = match config.concurrency {
            Some(c) => c,
            None => Self::determine_worker_count(),
        };
        let mut mod_list: Vec<Mod> = Vec::new();
        match &config.modrinth {
            Some(v) => push_tagged(&mut mod_list, v, ModSource::Modrinth),
            None => {},
        }
        let ghost after_modrinth = mod_refs(mod_list@);
        assert(after_modrinth == tagged(names_of(config.modrinth), ModSource::Modrinth));
        match &config.github {
            Some(v) => push_tagged(&mut mod_list, v, ModSource::Github),
            None => {},
        }
        assert(mod_refs(mod_list@) == configured_mods(config));
        Ok(EmdState { mod_loader, mod_list, concurrency, destination, version })
    }

    /// Drops every mod whose key was seen earlier in the list, keeping the first of each key
    /// and the order; returns the dropped mods, in order.
    pub fn check_duplicates(&mut self) -> (r: Vec<Mod>)
        ensures
            final(self).mods_spec() == kept(
                old(self).mods_spec(),
                dedup_keys(old(self).mods_spec()),
                old(self).mods_spec().len() as int,
            ),
            r@ == dropped(
                old(self).mods_spec(),
                dedup_keys(old(self).mods_spec()),
                old(self).mods_spec().len() as int,
            ),
            keys_distinct(final(self).mods_spec()),
            final(self).loader_spec() == old(self).loader_spec(),
            final(self).concurrency_spec() == old(self).concurrency_spec(),
            final(self).destination_spec() == old(self).destination_spec(),
            final(self).version_spec() == old(self).version_spec(),
    {
        let ghost mods = self.mod_list@;
        let mut keys: Vec<String> = Vec::new();
        let mut i: usize = 0;
        while i < self.mod_list.len()
            invariant
                self.mod_list@ == mods,
                i <= mods.len(),
                texts(keys@) == dedup_keys(mods.subrange(0, i as int)),
            decreases mods.len() - i,
        {
            let ghost before = keys@;
            let k = dedup_key(self.mod_list[i].name().as_str());
            keys.push(k);
            i += 1;
            proof {
                assert(texts(before) =~= dedup_keys(mods.subrange(0, i - 1)));
                assert(texts(keys@) =~= texts(before).push(k@));
                assert(dedup_keys(mods.subrange(0, i as int)) =~= dedup_keys(
                    mods.subrange(0, i - 1),
                ).push(dedup_key_spec(mods[i - 1].name_spec())));
            }
        }
        assert(mods.subrange(0, mods.len() as int) == mods);
        let mut list: Vec<Mod> = Vec::new();
        core::mem::swap(&mut list, &mut self.mod_list);
        let (keep, drop) = drop_duplicates(list, &keys);
        proof {
            lemma_kept_keys(mods, mods.len() as int);
            lemma_kept_keys_distinct(dedup_keys(mods), mods.len() as int);
            assert(texts(keys@) == dedup_keys(mods));
        }
        self.mod_list = keep;
        drop
    }

    /// The index ranges of the work slices of this job.
    pub fn get_slice_indices(&self) -> (r: Vec<Range<usize>>)
        requires
            self.wf(),
        ensures
            slices_spec(self.mods_spec().len() as int, self.concurrency_spec(), r@),
    {
        slice_indices(self.mod_list.len(), self.concurrency)
    }

    pub fn mod_list(&self) -> (r: &Vec<Mod>)
        ensures
            r@ == self.mods_spec(),
    {
        &self.mod_list
    }

    pub fn mod_loader(&self) -> (r: &String)
        ensures
            r@ == self.loader_spec(),
    {
        &self.mod_loader
    }

    pub fn concurrency(&self) -> (r: usize)
        ensures
            r == self.concurrency_spec(),
    {
        self.concurrency
    }

    pub fn destination(&self) -> (r: &String)
        ensures
            r@ == self.destination_spec(),
    {
        &self.destination
    }

    pub fn version(&self) -> (r: &VersionMatcher)
        ensures
            *r == self.version_spec(),
    {
        &self.version
    }
}

fn push_tagged(list: &mut Vec<Mod>, names: &Vec<String>, source: ModSource)
    ensures
        mod_refs(final(list)@) == mod_refs(old(list)@) + tagged(names@, source),
{
    let ghost start = mod_refs(list@);
    let mut i: usize = 0;
    while i < names.len()
        invariant
            i <= names@.len(),
            mod_refs(list@) == start + tagged(names@.subrange(0, i as int), source),
        decreases names.len() - i,
    {
        let ghost before = list@;
        let m = Mod::new(names[i].clone(), source);
        list.push(m);
        i += 1;
        proof {
            assert(mod_refs(before) =~= start + tagged(names@.subrange(0, i - 1), source));
            assert(list@ == before.push(m));
            assert(mod_refs(list@) =~= mod_refs(before).push(mod_ref(m)));
            assert(tagged(names@.subrange(0, i as int), source) =~= tagged(
                names@.subrange(0, i - 1),
                source,
            ).push((names@[i - 1]@, source)));
            assert(mod_refs(list@) =~= start + tagged(names@.subrange(0, i as int), source));
        }
    }
    assert(names@.subrange(0, names@.len() as int) == names@);
}

} // verus!
