//! The runtime style cache.
//!
//! Generators are registered under a stable identity and run at most
//! once: registering the same identity again returns the previously
//! assigned slot base without touching any state.  When the theme
//! changes, every registered generator is replayed in registration
//! order, each against its own fixed slot window, and the backend
//! receives the full rebuilt text.  The backend's contents always
//! equal the concatenation, in registration order, of each
//! generator's output against the current theme.

use vstd::prelude::*;

use crate::compile::{CompiledStyle, compiled_css, compiled_count, compiled_wf,
    lemma_compiled_params_fit};
use crate::output::{Param, ParamV, param_view};
use crate::render::{params_fit, render_template, spec_render};

verus! {

// ---------------------------------------------------------------------------
// Themes
// ---------------------------------------------------------------------------

/// A theme: shared data that styles may depend on, with a cheap
/// equality hook used to decide whether a theme update needs a full
/// recomputation.
pub trait Theme: Sized {
    /// What the equality hook decides.
    spec fn eq_spec(&self, other: &Self) -> bool;

    /// The cheap equality hook.
    fn fast_cmp(&self, other: &Self) -> (r: bool)
        ensures
            r == self.eq_spec(other),
    ;
}

/// The trivial theme, for styles that depend on no shared data.
#[derive(Clone, Copy, Debug)]
pub struct EmptyTheme;

impl Theme for EmptyTheme {
    open spec fn eq_spec(&self, other: &Self) -> bool {
        true
    }

    fn fast_cmp(&self, _other: &Self) -> bool {
        true
    }
}

/// A theme holding a list of plain text values that bound styles can
/// reference by index.
#[derive(Debug)]
pub struct ThemeVars {
    pub values: Vec<Vec<char>>,
}

/// The text values of a theme.
pub open spec fn theme_values(t: ThemeVars) -> Seq<Seq<char>> {
    t.values@.map_values(|v: Vec<char>| v@)
}

impl Theme for ThemeVars {
    open spec fn eq_spec(&self, other: &Self) -> bool {
        theme_values(*self) == theme_values(*other)
    }

    fn fast_cmp(&self, other: &Self) -> (r: bool) {
        if self.values.len() != other.values.len() {
            proof {
                assert(theme_values(*self).len() != theme_values(*other).len());
            }
            return false;
        }
        let mut i: usize = 0;
        while i < self.values.len()
            invariant
                0 <= i <= self.values@.len(),
                self.values@.len() == other.values@.len(),
                forall|k: int| 0 <= k < i ==> self.values@[k]@ == other.values@[k]@,
            decreases self.values@.len() - i,
        {
            if !crate::order::name_eq(&self.values[i], &other.values[i]) {
                proof {
                    assert(theme_values(*self)[i as int] != theme_values(*other)[i as int]);
                }
                return false;
            }
            i += 1;
        }
        proof {
            assert(theme_values(*self) =~= theme_values(*other));
        }
        true
    }
}

// ---------------------------------------------------------------------------
// Generators
// ---------------------------------------------------------------------------

/// A generator: the compiled routine of one style block.  Its output
/// and class count are functions of the value, so replaying it always
/// advances the counter by the same amount.
pub trait Generator<T>: Sized {
    /// Well-formedness the runtime relies on.
    spec fn wf(&self) -> bool;

    /// The registration identity.
    spec fn gen_id(&self) -> u64;

    /// How many distinct classnames this generator consumes.
    spec fn count(&self) -> nat;

    /// The text rendered for a theme and a slot base.
    spec fn css_output(&self, theme: T, start: u64) -> Seq<char>;

    /// The registration identity.
    fn id(&self) -> (r: u64)
        requires
            self.wf(),
        ensures
            r == self.gen_id(),
    ;

    /// The number of distinct classnames.
    fn class_count(&self) -> (n: u64)
        requires
            self.wf(),
        ensures
            n as nat == self.count(),
    ;

    /// Appends the rendered text for this style block and advances
    /// the counter by exactly the class count.
    fn generate(&self, theme: &T, css: &mut Vec<char>, counter: &mut u64)
        requires
            self.wf(),
            *old(counter) + self.count() <= u64::MAX,
        ensures
            final(css)@ == old(css)@ + self.css_output(*theme, *old(counter)),
            *final(counter) == *old(counter) + self.count(),
    ;
}

impl<T> Generator<T> for CompiledStyle {
    open spec fn wf(&self) -> bool {
        compiled_wf(*self)
    }

    open spec fn gen_id(&self) -> u64 {
        self.id
    }

    open spec fn count(&self) -> nat {
        compiled_count(*self)
    }

    /// A compiled style renders its template; opaque expression
    /// values are emitted verbatim, as they stand in the source.
    open spec fn css_output(&self, theme: T, start: u64) -> Seq<char> {
        compiled_css(*self, start)
    }

    fn id(&self) -> u64 {
        self.id
    }

    fn class_count(&self) -> u64 {
        self.output.map.len() as u64
    }

    fn generate(&self, theme: &T, css: &mut Vec<char>, counter: &mut u64) {
        let start = *counter;
        proof {
            lemma_compiled_params_fit(*self, start);
        }
        render_template(&self.output.format_str, &self.output.params, start, css);
        *counter = start + self.output.map.len() as u64;
    }
}

/// Substitutes bound theme values for the opaque expression
/// parameters: the parameter at position `j` takes the theme value
/// picked by `bindings[j]`; anything out of range renders empty.
pub open spec fn bind_params(
    params: Seq<ParamV>,
    bindings: Seq<usize>,
    values: Seq<Seq<char>>,
) -> Seq<ParamV> {
    Seq::new(
        params.len(),
        |j: int|
            match params[j] {
                ParamV::Expr(_) => ParamV::Lit(
                    if j < bindings.len() && (bindings[j] as int) < values.len() {
                        values[bindings[j] as int]
                    } else {
                        Seq::empty()
                    },
                ),
                other => other,
            },
    )
}

/// A compiled style whose opaque expression values are bound, at the
/// call site, to values of a `ThemeVars` theme.  Its output changes
/// when the theme does.
#[derive(Debug)]
pub struct BoundStyle {
    pub style: CompiledStyle,
    pub bindings: Vec<usize>,
}

impl Generator<ThemeVars> for BoundStyle {
    open spec fn wf(&self) -> bool {
        compiled_wf(self.style)
    }

    open spec fn gen_id(&self) -> u64 {
        self.style.id
    }

    open spec fn count(&self) -> nat {
        compiled_count(self.style)
    }

    open spec fn css_output(&self, theme: ThemeVars, start: u64) -> Seq<char> {
        spec_render(
            self.style.output.format_str@,
            bind_params(
                self.style.output.params@.map_values(|p: Param| param_view(p)),
                self.bindings@,
                theme_values(theme),
            ),
            start,
        )
    }

    fn id(&self) -> u64 {
        self.style.id
    }

    fn class_count(&self) -> u64 {
        self.style.output.map.len() as u64
    }

    fn generate(&self, theme: &ThemeVars, css: &mut Vec<char>, counter: &mut u64) {
        let start = *counter;
        let ghost pv = self.style.output.params@.map_values(|p: Param| param_view(p));
        let ghost bp = bind_params(pv, self.bindings@, theme_values(*theme));
        let mut resolved: Vec<Param> = Vec::new();
        let mut j: usize = 0;
        while j < self.style.output.params.len()
            invariant
                0 <= j <= self.style.output.params@.len(),
                pv == self.style.output.params@.map_values(|p: Param| param_view(p)),
                bp == bind_params(pv, self.bindings@, theme_values(*theme)),
                bp.len() == pv.len(),
                resolved@.map_values(|p: Param| param_view(p)) == bp.take(j as int),
            decreases self.style.output.params@.len() - j,
        {
            let p = &self.style.output.params[j];
            proof {
                assert(pv[j as int] == param_view(self.style.output.params@[j as int]));
                assert(resolved@.map_values(|p: Param| param_view(p)).len()
                    == resolved@.len());
                assert(resolved@.len() == j);
            }
            match p {
                Param::Expr(_) => {
                    let mut val: Vec<char> = Vec::new();
                    if j < self.bindings.len() {
                        let b = self.bindings[j];
                        proof {
                            assert(self.bindings@[j as int] == b);
                        }
                        if b < theme.values.len() {
                            val = crate::ast::clone_chars(&theme.values[b]);
                            proof {
                                assert(theme_values(*theme)[b as int] == theme.values@[
                                    b as int
                                ]@);
                                assert(val@ == theme_values(*theme)[
                                    self.bindings@[j as int] as int
                                ]);
                            }
                        }
                    }
                    resolved.push(Param::Lit(val));
                    proof {
                        assert(bp[j as int] == ParamV::Lit(val@));
                        assert(param_view(resolved@[j as int]) == bp[j as int]);
                    }
                },
                Param::Slot(k) => {
                    resolved.push(Param::Slot(*k));
                    proof {
                        assert(bp[j as int] == pv[j as int]);
                        assert(param_view(resolved@[j as int]) == bp[j as int]);
                    }
                },
                Param::Lit(s) => {
                    resolved.push(Param::Lit(crate::ast::clone_chars(s)));
                    proof {
                        assert(bp[j as int] == pv[j as int]);
                        assert(param_view(resolved@[j as int]) == bp[j as int]);
                    }
                },
            }
            proof {
                assert(resolved@.map_values(|p: Param| param_view(p)) =~~= bp.take(j + 1));
            }
            j += 1;
        }
        proof {
            assert(bp.take(bp.len() as int) =~= bp);
            lemma_compiled_params_fit(self.style, start);
            assert forall|k: int|
                0 <= k < bp.len() implies ((#[trigger] bp[k]) is Slot ==> start + bp[k]->Slot_0
                    <= u64::MAX) by {
                assert(pv[k] is Slot ==> start + pv[k]->Slot_0 <= u64::MAX);
            }
        }
        render_template(&self.style.output.format_str, &resolved, start, css);
        *counter = start + self.style.output.map.len() as u64;
    }
}

// ---------------------------------------------------------------------------
// Backends
// ---------------------------------------------------------------------------

/// A sink for the generated stylesheet text.  Whichever path is
/// used, the exposed contents always equal what was handed over.
pub trait Backend: Sized {
    /// The stylesheet text the backend currently exposes.  Backends
    /// outside the verified library may leave this at its default.
    open spec fn contents(&self) -> Seq<char> {
        Seq::empty()
    }

    /// Atomically replaces the whole exposed text.
    fn replace_all(&mut self, css: Vec<char>)
        ensures
            final(self).contents() == css@,
    ;

    /// Appends freshly generated text without disturbing what is
    /// already exposed; used on first registration only.
    fn append_incremental(&mut self, css: &Vec<char>)
        ensures
            final(self).contents() == old(self).contents() + css@,
    ;
}

/// An in-memory backend: the stylesheet is kept in a plain text
/// buffer, as a server-side renderer would.
#[derive(Debug)]
pub struct StringBackend {
    pub css: Vec<char>,
}

impl StringBackend {
    /// An empty backend.
    pub fn new() -> (b: StringBackend)
        ensures
            b.css@ == Seq::<char>::empty(),
    {
        StringBackend { css: Vec::new() }
    }
}

impl Backend for StringBackend {
    open spec fn contents(&self) -> Seq<char> {
        self.css@
    }

    fn replace_all(&mut self, css: Vec<char>) {
        self.css = css;
    }

    fn append_incremental(&mut self, css: &Vec<char>) {
        let mut i: usize = 0;
        proof {
            assert(self.css@ =~= old(self).css@ + css@.take(0));
        }
        while i < css.len()
            invariant
                0 <= i <= css@.len(),
                self.css@ == old(self).css@ + css@.take(i as int),
            decreases css@.len() - i,
        {
            self.css.push(css[i]);
            proof {
                assert(self.css@ =~= old(self).css@ + css@.take(i + 1));
            }
            i += 1;
        }
        proof {
            assert(css@.take(css@.len() as int) =~= css@);
        }
    }
}

// ---------------------------------------------------------------------------
// Registered generators
// ---------------------------------------------------------------------------

/// One registration: a generator together with the counter window it
/// was assigned on first run.
#[derive(Debug)]
pub struct CssGenerator<G> {
    pub generator: G,
    pub start: u64,
    pub stop: u64,
}

impl<G> CssGenerator<G> {
    /// Replays the generator against its own fixed window.  The
    /// generator contract guarantees the replay consumes exactly
    /// `stop - start` slots, so the counter check cannot fail.
    pub fn generate<T>(&self, theme: &T, css: &mut Vec<char>) where G: Generator<T>
        requires
            self.generator.wf(),
            self.stop == self.start + self.generator.count(),
        ensures
            final(css)@ == old(css)@ + self.generator.css_output(*theme, self.start),
    {
        let mut counter: u64 = self.start;
        self.generator.generate(theme, css, &mut counter);
        assert(counter == self.stop);
    }
}

/// The concatenation, in registration order, of every registered
/// generator's output against a theme, each from its own start.
pub open spec fn total_css<T, G: Generator<T>>(gens: Seq<CssGenerator<G>>, theme: T) -> Seq<
    char,
>
    decreases gens.len(),
{
    if gens.len() == 0 {
        Seq::empty()
    } else {
        total_css(gens.take(gens.len() - 1), theme) + gens.last().generator.css_output(
            theme,
            gens.last().start,
        )
    }
}

/// Whether some registered generator carries this identity.
pub open spec fn registered<T, G: Generator<T>>(gens: Seq<CssGenerator<G>>, id: u64) -> bool {
    exists|i: int| 0 <= i < gens.len() && (#[trigger] gens[i]).generator.gen_id() == id
}

/// The position of the registration with this identity.
pub open spec fn registered_index<T, G: Generator<T>>(
    gens: Seq<CssGenerator<G>>,
    id: u64,
) -> int {
    choose|i: int| 0 <= i < gens.len() && (#[trigger] gens[i]).generator.gen_id() == id
}

/// The start assigned to the registration with this identity.
pub open spec fn registered_start<T, G: Generator<T>>(
    gens: Seq<CssGenerator<G>>,
    id: u64,
) -> u64 {
    gens[registered_index::<T, G>(gens, id)].start
}

// ---------------------------------------------------------------------------
// The cache
// ---------------------------------------------------------------------------

/// The cache state: the backend, the active theme, the registered
/// generators in registration order, and the classname counter.
#[derive(Debug)]
pub struct Inner<T, G, B> {
    pub backend: B,
    pub current_theme: T,
    pub generators: Vec<CssGenerator<G>>,
    pub counter: u64,
}

/// Structural soundness: well-formed generators, contiguous counter
/// windows starting at zero, the counter at the last window's end,
/// and pairwise distinct identities.
pub open spec fn inner_sound<T, G: Generator<T>, B: Backend>(inner: Inner<T, G, B>) -> bool {
    let gens = inner.generators@;
    &&& forall|i: int| 0 <= i < gens.len() ==> (#[trigger] gens[i]).generator.wf()
    &&& forall|i: int|
        0 <= i < gens.len() ==> (#[trigger] gens[i]).stop == gens[i].start
            + gens[i].generator.count()
    &&& forall|i: int| 0 < i < gens.len() ==> (#[trigger] gens[i]).start == gens[i - 1].stop
    &&& (gens.len() > 0 ==> gens[0].start == 0)
    &&& inner.counter == (if gens.len() == 0 {
        0u64
    } else {
        gens.last().stop
    })
    &&& forall|i: int, j: int|
        0 <= i < j < gens.len() ==> (#[trigger] gens[i]).generator.gen_id() != (
        #[trigger] gens[j]).generator.gen_id()
}

/// Full well-formedness: sound, and the backend's contents equal the
/// concatenation of every registered generator's output against the
/// current theme.
pub open spec fn inner_wf<T, G: Generator<T>, B: Backend>(inner: Inner<T, G, B>) -> bool {
    &&& inner_sound(inner)
    &&& inner.backend.contents() == total_css(inner.generators@, inner.current_theme)
}

/// With distinct identities, an identity pins its registration.
pub proof fn lemma_registered_unique<T, G: Generator<T>>(gens: Seq<CssGenerator<G>>, i: int)
    requires
        forall|a: int, b: int|
            0 <= a < b < gens.len() ==> (#[trigger] gens[a]).generator.gen_id() != (
            #[trigger] gens[b]).generator.gen_id(),
        0 <= i < gens.len(),
    ensures
        registered::<T, G>(gens, gens[i].generator.gen_id()),
        registered_index::<T, G>(gens, gens[i].generator.gen_id()) == i,
{
    let id = gens[i].generator.gen_id();
    assert(registered::<T, G>(gens, id));
    let j = registered_index::<T, G>(gens, id);
    if j != i {
        if j < i {
            assert(gens[j].generator.gen_id() != gens[i].generator.gen_id());
        } else {
            assert(gens[i].generator.gen_id() != gens[j].generator.gen_id());
        }
        assert(false);
    }
}

/// Counter windows never pass the counter.
pub proof fn lemma_stop_bounded<T, G: Generator<T>, B: Backend>(
    inner: Inner<T, G, B>,
    i: int,
)
    requires
        inner_sound(inner),
        0 <= i < inner.generators@.len(),
    ensures
        inner.generators@[i].start <= inner.generators@[i].stop <= inner.counter,
    decreases inner.generators@.len() - i,
{
    let gens = inner.generators@;
    if i == gens.len() - 1 {
        assert(gens[i] == gens.last());
    } else {
        lemma_stop_bounded(inner, i + 1);
        assert(gens[i + 1].start == gens[i].stop);
    }
}

impl<T: Theme, G: Generator<T>, B: Backend> Inner<T, G, B> {
    /// A fresh cache over an empty backend.
    pub fn new_with_backend(backend: B, theme: T) -> (inner: Inner<T, G, B>)
        requires
            backend.contents() == Seq::<char>::empty(),
        ensures
            inner_wf(inner),
            inner.generators@.len() == 0,
            inner.current_theme == theme,
            inner.counter == 0,
    {
        let inner = Inner { backend, current_theme: theme, generators: Vec::new(), counter: 0 };
        proof {
            assert(total_css(inner.generators@, inner.current_theme) =~= Seq::<char>::empty());
        }
        inner
    }

    /// Registers a generator.  An identity seen before returns its
    /// previously assigned start, runs nothing and changes nothing.
    /// A new identity is assigned the current counter as its start,
    /// run once, its text appended to the backend, and its window
    /// recorded.
    pub fn add_css_generator(&mut self, generator: G) -> (start: u64)
        requires
            inner_wf(*old(self)),
            generator.wf(),
            !registered::<T, G>(old(self).generators@, generator.gen_id())
                ==> old(self).counter + generator.count() <= u64::MAX,
        ensures
            inner_wf(*final(self)),
            final(self).current_theme == old(self).current_theme,
            registered::<T, G>(final(self).generators@, generator.gen_id()),
            registered::<T, G>(old(self).generators@, generator.gen_id()) ==> (*final(self)
                == *old(self) && start == registered_start::<T, G>(
                old(self).generators@,
                generator.gen_id(),
            )),
            !registered::<T, G>(old(self).generators@, generator.gen_id()) ==> ({
                &&& start == old(self).counter
                &&& final(self).generators@ == old(self).generators@.push(
                    CssGenerator {
                        generator: generator,
                        start: old(self).counter,
                        stop: (old(self).counter + generator.count()) as u64,
                    },
                )
                &&& final(self).counter == old(self).counter + generator.count()
                &&& final(self).backend.contents() == old(self).backend.contents()
                    + generator.css_output(old(self).current_theme, old(self).counter)
            }),
    {
        let gid = generator.id();
        let n = self.generators.len();
        let mut i: usize = 0;
        while i < n
            invariant
                *self == *old(self),
                inner_wf(*self),
                n == self.generators@.len(),
                0 <= i <= n,
                gid == generator.gen_id(),
                forall|k: int|
                    0 <= k < i ==> (#[trigger] self.generators@[k]).generator.gen_id() != gid,
            decreases n - i,
        {
            if self.generators[i].generator.id() == gid {
                proof {
                    lemma_registered_unique::<T, G>(self.generators@, i as int);
                }
                return self.generators[i].start;
            }
            i += 1;
        }
        proof {
            assert(!registered::<T, G>(self.generators@, gid));
        }
        let start = self.counter;
        let mut scratch: Vec<char> = Vec::new();
        let mut c: u64 = self.counter;
        generator.generate(&self.current_theme, &mut scratch, &mut c);
        self.backend.append_incremental(&scratch);
        let ghost oldgens = self.generators@;
        let ghost theme = self.current_theme;
        self.generators.push(CssGenerator { generator, start, stop: c });
        self.counter = c;
        proof {
            let gens = self.generators@;
            assert(gens.take(gens.len() - 1) =~= oldgens);
            assert(gens.last() == gens[gens.len() - 1]);
            assert(total_css(gens, theme) == total_css(oldgens, theme)
                + gens.last().generator.css_output(theme, gens.last().start));
            assert forall|k: int|
                0 <= k < gens.len() implies (#[trigger] gens[k]).generator.wf() by {
                if k < gens.len() - 1 {
                    assert(gens[k] == oldgens[k]);
                }
            }
            assert forall|k: int|
                0 <= k < gens.len() implies (#[trigger] gens[k]).stop == gens[k].start
                + gens[k].generator.count() by {
                if k < gens.len() - 1 {
                    assert(gens[k] == oldgens[k]);
                }
            }
            assert forall|k: int|
                0 < k < gens.len() implies (#[trigger] gens[k]).start == gens[k - 1].stop by {
                if k < gens.len() - 1 {
                    assert(gens[k] == oldgens[k]);
                    assert(gens[k - 1] == oldgens[k - 1]);
                } else {
                    if k - 1 < gens.len() - 1 {
                        assert(gens[k - 1] == oldgens[k - 1]);
                    }
                }
            }
            assert forall|a: int, b: int|
                0 <= a < b < gens.len() implies (#[trigger] gens[a]).generator.gen_id() != (
            #[trigger] gens[b]).generator.gen_id() by {
                if b < gens.len() - 1 {
                    assert(gens[a] == oldgens[a]);
                    assert(gens[b] == oldgens[b]);
                } else {
                    assert(gens[a] == oldgens[a]);
                }
            }
            assert(inner_sound(*self));
            assert(inner_wf(*self));
        }
        start
    }

    /// Rebuilds the whole stylesheet text: replays every registered
    /// generator, in registration order, against the current theme,
    /// and hands the full text to the backend.
    pub fn update(&mut self)
        requires
            inner_sound(*old(self)),
        ensures
            inner_wf(*final(self)),
            final(self).generators@ == old(self).generators@,
            final(self).current_theme == old(self).current_theme,
            final(self).counter == old(self).counter,
    {
        let mut css: Vec<char> = Vec::new();
        let ghost theme = self.current_theme;
        let ghost gens = self.generators@;
        let mut i: usize = 0;
        proof {
            assert(total_css(gens.take(0), theme) =~= Seq::<char>::empty());
            assert(css@ =~= total_css(gens.take(0), theme));
        }
        while i < self.generators.len()
            invariant
                inner_sound(*self),
                *self == *old(self),
                gens == self.generators@,
                theme == self.current_theme,
                0 <= i <= gens.len(),
                css@ == total_css(gens.take(i as int), theme),
            decreases gens.len() - i,
        {
            self.generators[i].generate(&self.current_theme, &mut css);
            proof {
                let prefix = gens.take(i + 1);
                assert(prefix.take(prefix.len() - 1) =~= gens.take(i as int));
                assert(prefix.last() == gens[i as int]);
                assert(css@ =~= total_css(gens.take(i + 1), theme));
            }
            i += 1;
        }
        proof {
            assert(gens.take(gens.len() as int) =~= gens);
        }
        self.backend.replace_all(css);
    }

    /// Replaces the theme.  A theme equal per the hook is a no-op;
    /// otherwise every registered generator is replayed against the
    /// new theme and the backend receives the full rebuilt text.
    pub fn update_theme(&mut self, theme: T)
        requires
            inner_wf(*old(self)),
        ensures
            inner_wf(*final(self)),
            old(self).current_theme.eq_spec(&theme) ==> *final(self) == *old(self),
            !old(self).current_theme.eq_spec(&theme) ==> ({
                &&& final(self).current_theme == theme
                &&& final(self).generators@ == old(self).generators@
                &&& final(self).counter == old(self).counter
                &&& final(self).backend.contents() == total_css(old(self).generators@, theme)
            }),
    {
        if !self.current_theme.fast_cmp(&theme) {
            self.current_theme = theme;
            self.update();
        }
    }
}

/// The backend obligation, whichever path fed it: a well-formed
/// cache's backend always exposes exactly the concatenation, in
/// registration order, of each registered generator's output against
/// the current theme.
pub proof fn lemma_backend_matches_registration<T: Theme, G: Generator<T>, B: Backend>(
    inner: Inner<T, G, B>,
)
    requires
        inner_wf(inner),
    ensures
        inner.backend.contents() == total_css(inner.generators@, inner.current_theme),
{
}

// ---------------------------------------------------------------------------
// The provider
// ---------------------------------------------------------------------------

/// Manages dynamically inserted styles; one per document or output.
/// Registered styles get unique, stable classnames; changing the
/// theme recomputes all styles without changing any classname.
#[derive(Debug)]
pub struct StyleProvider<T, G, B> {
    pub inner: Inner<T, G, B>,
}

impl<T: Theme, G: Generator<T>, B: Backend> StyleProvider<T, G, B> {
    /// A provider over a fresh, empty backend.
    pub fn new_with_backend(backend: B, theme: T) -> (p: StyleProvider<T, G, B>)
        requires
            backend.contents() == Seq::<char>::empty(),
        ensures
            inner_wf(p.inner),
            p.inner.generators@.len() == 0,
            p.inner.current_theme == theme,
    {
        StyleProvider { inner: Inner::new_with_backend(backend, theme) }
    }

    /// Registers a generator; see `Inner::add_css_generator`.
    pub fn add_css_generator(&mut self, generator: G) -> (start: u64)
        requires
            inner_wf(old(self).inner),
            generator.wf(),
            !registered::<T, G>(old(self).inner.generators@, generator.gen_id())
                ==> old(self).inner.counter + generator.count() <= u64::MAX,
        ensures
            inner_wf(final(self).inner),
            final(self).inner.current_theme == old(self).inner.current_theme,
            registered::<T, G>(final(self).inner.generators@, generator.gen_id()),
            registered::<T, G>(old(self).inner.generators@, generator.gen_id()) ==> (
            final(self).inner == old(self).inner && start == registered_start::<T, G>(
                old(self).inner.generators@,
                generator.gen_id(),
            )),
            !registered::<T, G>(old(self).inner.generators@, generator.gen_id()) ==> ({
                &&& start == old(self).inner.counter
                &&& final(self).inner.generators@ == old(self).inner.generators@.push(
                    CssGenerator {
                        generator: generator,
                        start: old(self).inner.counter,
                        stop: (old(self).inner.counter + generator.count()) as u64,
                    },
                )
                &&& final(self).inner.counter == old(self).inner.counter + generator.count()
                &&& final(self).inner.backend.contents()
                    == old(self).inner.backend.contents() + generator.css_output(
                    old(self).inner.current_theme,
                    old(self).inner.counter,
                )
            }),
    {
        self.inner.add_css_generator(generator)
    }

    /// Changes the theme; see `Inner::update_theme`.
    pub fn update_theme(&mut self, theme: T)
        requires
            inner_wf(old(self).inner),
        ensures
            inner_wf(final(self).inner),
            old(self).inner.current_theme.eq_spec(&theme) ==> final(self).inner == old(self).inner,
            !old(self).inner.current_theme.eq_spec(&theme) ==> ({
                &&& final(self).inner.current_theme == theme
                &&& final(self).inner.generators@ == old(self).inner.generators@
                &&& final(self).inner.counter == old(self).inner.counter
                &&& final(self).inner.backend.contents() == total_css(
                    old(self).inner.generators@,
                    theme,
                )
            }),
    {
        self.inner.update_theme(theme);
    }
}

/// The start a registration call assigns: the already recorded start
/// for a known identity, the current counter for a new one.
pub open spec fn assigned_start<T, G: Generator<T>>(
    gens: Seq<CssGenerator<G>>,
    counter: u64,
    id: u64,
) -> u64 {
    if registered::<T, G>(gens, id) {
        registered_start::<T, G>(gens, id)
    } else {
        counter
    }
}

impl<T: Theme, B: Backend> StyleProvider<T, CompiledStyle, B> {
    /// Mounts a compiled style and returns its final classnames: each
    /// distinct classname, in slot order, bound to `css-{start+slot}`.
    /// A style already mounted (same identity) is not mounted again
    /// and receives the same names as the first time.  An identity
    /// stands for one compiled style, so a re-mounted style must
    /// declare the same number of classnames as the registration that
    /// first used its identity.
    pub fn add_classes(&mut self, style: CompiledStyle) -> (r: Vec<(Vec<char>, Vec<char>)>)
        requires
            inner_wf(old(self).inner),
            compiled_wf(style),
            !registered::<T, CompiledStyle>(old(self).inner.generators@, style.id)
                ==> old(self).inner.counter + compiled_count(style) <= u64::MAX,
            registered::<T, CompiledStyle>(old(self).inner.generators@, style.id)
                ==> compiled_count(
                old(self).inner.generators@[registered_index::<T, CompiledStyle>(
                    old(self).inner.generators@,
                    style.id,
                )].generator,
            ) == compiled_count(style),
        ensures
            inner_wf(final(self).inner),
            final(self).inner.current_theme == old(self).inner.current_theme,
            registered::<T, CompiledStyle>(final(self).inner.generators@, style.id),
            r@.len() == compiled_count(style),
            forall|i: int|
                0 <= i < r@.len() ==> (#[trigger] r@[i]).0@ == style.output.map.names@[i]@
                    && r@[i].1@ == crate::compile::css_name(
                    assigned_start::<T, CompiledStyle>(
                        old(self).inner.generators@,
                        old(self).inner.counter,
                        style.id,
                    ),
                    i,
                ),
    {
        let names = crate::compile::clone_names(&style.output.map.names);
        let ghost oldgens = self.inner.generators@;
        let ghost oldcounter = self.inner.counter;
        proof {
            if registered::<T, CompiledStyle>(oldgens, style.id) {
                let idx = registered_index::<T, CompiledStyle>(oldgens, style.id);
                lemma_stop_bounded(self.inner, idx);
            }
        }
        let start = self.add_css_generator(style);
        proof {
            assert(start + names@.len() <= u64::MAX);
        }
        crate::compile::construct_classnames(&names, start)
    }
}

} // verus!
