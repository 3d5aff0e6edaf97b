//! The configuration loader: holds one mirror as accumulated state, merges
//! in one source after another, and finishes by validating and producing
//! the strict configuration value.
//!
//! Source order matters: each added source merges strictly after all
//! previous ones, so later explicit values win per field. A failing source
//! leaves the previously accumulated state intact.

use vstd::prelude::*;

use crate::env::EnvProvider;
use crate::env::spec_from_env;
use crate::error::Error;
use crate::error::LoadLocation;
use crate::finish::Conf;
use crate::finish::paths_view;
use crate::finish::spec_finalize;
use crate::finish::spec_missing;
use crate::merge::spec_merge;
use crate::raw::spec_of_raw;
use crate::text::spec_text_raw;
use crate::mirror::Mirror;
use crate::mirror::SpecMirror;
use crate::mirror::spec_defaults;
use crate::mirror::spec_empty_mirror;
use crate::mirror::lemma_empty_mirror_wf;
use crate::mirror::lemma_defaults_wf;
use crate::mirror::wf_mirror;
use crate::shape::Shape;
use crate::shape::wf_shape;
use crate::text::Format;

verus! {

/// Whether reading this text for this shape fails before anything merges:
/// the text does not denote a raw value, or the raw value does not fit the
/// shape.
pub open spec fn text_source_failed(
    format: Format,
    code: Seq<char>,
    s: crate::shape::SpecShape,
) -> bool {
    match spec_text_raw(format, code) {
        Err(_) => true,
        Ok(rw) => spec_of_raw(s, rw) is None,
    }
}

/// The configuration loader: a shape, and the mirror accumulated from every
/// source added so far.
#[derive(Debug)]
pub struct ConfigLoader {
    pub shape: Shape,
    pub partial: Mirror,
}

impl ConfigLoader {
    /// The loader's state is sound: its shape declaration is well formed
    /// and its accumulated mirror fits it.
    pub open spec fn wf(&self) -> bool {
        wf_shape(self.shape@) && wf_mirror(self.partial@, self.shape@)
    }

    /// A new loader for the given shape, with all fields empty. An invalid
    /// shape declaration is reported here, before any source is read.
    pub fn new(shape: Shape) -> (r: Result<ConfigLoader, Error>)
        ensures
            match r {
                Ok(l) => wf_shape(shape@) && l.wf() && l.shape@ == shape@ && l.partial@
                    == spec_empty_mirror(shape@),
                Err(e) => !wf_shape(shape@) && e == Error::Shape,
            },
    {
        if !shape.check() {
            return Err(Error::Shape);
        }
        let partial = Mirror::new_empty(&shape);
        proof {
            lemma_empty_mirror_wf(shape@);
        }
        Ok(ConfigLoader { shape, partial })
    }

    /// Merges one pre-built mirror into the accumulated state.
    fn add(&mut self, partial: Mirror) -> (r: Result<(), Error>)
        requires
            old(self).wf(),
            wf_mirror(partial@, old(self).shape@),
        ensures
            final(self).wf(),
            final(self).shape == old(self).shape,
            match r {
                Ok(_) => spec_merge(old(self).shape@, old(self).partial@, partial@) matches Ok(mm)
                    && final(self).partial@ == mm,
                Err(e) => {
                    &&& spec_merge(old(self).shape@, old(self).partial@, partial@) matches Err(p)
                        && e matches Error::Merge(me) && me.field@ == p && me.message@
                        == "append merge policy needs two list values"@
                    &&& final(self).partial@ == old(self).partial@
                },
            },
    {
        match self.partial.merge(&self.shape, partial) {
            Ok(()) => Ok(()),
            Err(e) => Err(Error::Merge(e)),
        }
    }

    /// Merges in every static default the shape declares.
    pub fn defaults(&mut self) -> (r: Result<(), Error>)
        requires
            old(self).wf(),
        ensures
            final(self).wf(),
            final(self).shape == old(self).shape,
            match r {
                Ok(_) => spec_merge(
                    old(self).shape@,
                    old(self).partial@,
                    spec_defaults(old(self).shape@),
                ) matches Ok(mm) && final(self).partial@ == mm,
                Err(e) => {
                    &&& spec_merge(
                        old(self).shape@,
                        old(self).partial@,
                        spec_defaults(old(self).shape@),
                    ) matches Err(p) && e matches Error::Merge(me) && me.field@ == p
                    &&& final(self).partial@ == old(self).partial@
                },
            },
    {
        let d = Mirror::defaults(&self.shape);
        proof {
            lemma_defaults_wf(self.shape@);
        }
        self.add(d)
    }

    /// Merges in a caller-constructed mirror directly.
    pub fn partial(&mut self, partial: Mirror) -> (r: Result<(), Error>)
        requires
            old(self).wf(),
            wf_mirror(partial@, old(self).shape@),
        ensures
            final(self).wf(),
            final(self).shape == old(self).shape,
            match r {
                Ok(_) => spec_merge(old(self).shape@, old(self).partial@, partial@) matches Ok(mm)
                    && final(self).partial@ == mm,
                Err(e) => {
                    &&& spec_merge(old(self).shape@, old(self).partial@, partial@) matches Err(p)
                        && e matches Error::Merge(me) && me.field@ == p
                    &&& final(self).partial@ == old(self).partial@
                },
            },
    {
        self.add(partial)
    }

    /// Binds a mirror from an environment provider and merges it in.
    pub fn env_with_provider<E: EnvProvider>(&mut self, env: &E) -> (r: Result<(), Error>)
        requires
            old(self).wf(),
        ensures
            final(self).wf(),
            final(self).shape == old(self).shape,
            match r {
                Ok(_) => spec_from_env(old(self).shape@, env.env_model(), None) matches Ok(m)
                    && spec_merge(old(self).shape@, old(self).partial@, m) matches Ok(mm)
                    && final(self).partial@ == mm,
                Err(e) => {
                    &&& final(self).partial@ == old(self).partial@
                    &&& match e {
                        Error::FromEnv(fe) => env.fallible() || (spec_from_env(
                            old(self).shape@,
                            env.env_model(),
                            None,
                        ) matches Err(se) && fe.key@ == se.key && fe.field@ == se.field),
                        Error::Merge(me) => spec_from_env(
                            old(self).shape@,
                            env.env_model(),
                            None,
                        ) matches Ok(m) && spec_merge(old(self).shape@, old(self).partial@, m)
                            matches Err(p) && me.field@ == p,
                        _ => false,
                    }
                },
            },
    {
        let m = match Mirror::from_env_with_provider(&self.shape, env) {
            Ok(m) => m,
            Err(e) => {
                return Err(Error::FromEnv(e));
            },
        };
        self.add(m)
    }

    /// Binds a mirror from an environment provider under a prefix and
    /// merges it in.
    pub fn env_with_provider_and_prefix<E: EnvProvider>(&mut self, env: &E, prefix: &str) -> (r:
        Result<(), Error>)
        requires
            old(self).wf(),
        ensures
            final(self).wf(),
            final(self).shape == old(self).shape,
            match r {
                Ok(_) => spec_from_env(old(self).shape@, env.env_model(), Some(prefix@))
                    matches Ok(m) && spec_merge(old(self).shape@, old(self).partial@, m)
                    matches Ok(mm) && final(self).partial@ == mm,
                Err(e) => {
                    &&& final(self).partial@ == old(self).partial@
                    &&& match e {
                        Error::FromEnv(fe) => env.fallible() || (spec_from_env(
                            old(self).shape@,
                            env.env_model(),
                            Some(prefix@),
                        ) matches Err(se) && fe.key@ == se.key && fe.field@ == se.field),
                        Error::Merge(me) => spec_from_env(
                            old(self).shape@,
                            env.env_model(),
                            Some(prefix@),
                        ) matches Ok(m) && spec_merge(old(self).shape@, old(self).partial@, m)
                            matches Err(p) && me.field@ == p,
                        _ => false,
                    }
                },
            },
    {
        let m = match Mirror::from_env_with_provider_and_prefix(&self.shape, env, prefix) {
            Ok(m) => m,
            Err(e) => {
                return Err(Error::FromEnv(e));
            },
        };
        self.add(m)
    }

    /// Parses in-memory configuration text of the given format and merges
    /// it in.
    pub fn code(&mut self, code: &str, format: Format) -> (r: Result<(), Error>)
        requires
            old(self).wf(),
        ensures
            final(self).wf(),
            final(self).shape == old(self).shape,
            match r {
                Ok(_) => {
                    &&& spec_text_raw(format, code@) matches Ok(rw)
                    &&& spec_of_raw(old(self).shape@, rw) matches Some(m)
                    &&& spec_merge(old(self).shape@, old(self).partial@, m) == Ok::<
                        SpecMirror,
                        Seq<char>,
                    >(final(self).partial@)
                },
                Err(e) => {
                    &&& final(self).partial@ == old(self).partial@
                    &&& match e {
                        Error::Json { message: _, location: l } => l == LoadLocation::Memory && (
                        format is Json || format is Jsonc) && text_source_failed(
                            format,
                            code@,
                            old(self).shape@,
                        ),
                        Error::Toml { message: _, location: l } => l == LoadLocation::Memory && format is Toml
                            && text_source_failed(format, code@, old(self).shape@),
                        Error::Yaml { message: _, location: l } => l == LoadLocation::Memory && format is Yaml
                            && text_source_failed(format, code@, old(self).shape@),
                        Error::Merge(me) => {
                            &&& spec_text_raw(format, code@) matches Ok(rw)
                            &&& spec_of_raw(old(self).shape@, rw) matches Some(m)
                            &&& spec_merge(old(self).shape@, old(self).partial@, m) matches Err(p)
                                && me.field@ == p
                        },
                        _ => false,
                    }
                },
            },
    {
        self.code_with_location(code, format, LoadLocation::Memory)
    }

    /// Parses in-memory configuration text and merges it in, remembering
    /// where the text came from for diagnostics.
    pub fn code_with_location(&mut self, code: &str, format: Format, location: LoadLocation) -> (r:
        Result<(), Error>)
        requires
            old(self).wf(),
        ensures
            final(self).wf(),
            final(self).shape == old(self).shape,
            match r {
                Ok(_) => {
                    &&& spec_text_raw(format, code@) matches Ok(rw)
                    &&& spec_of_raw(old(self).shape@, rw) matches Some(m)
                    &&& spec_merge(old(self).shape@, old(self).partial@, m) == Ok::<
                        SpecMirror,
                        Seq<char>,
                    >(final(self).partial@)
                },
                Err(e) => {
                    &&& final(self).partial@ == old(self).partial@
                    &&& match e {
                        Error::Json { message: _, location: l } => l == location && (
                        format is Json || format is Jsonc) && text_source_failed(
                            format,
                            code@,
                            old(self).shape@,
                        ),
                        Error::Toml { message: _, location: l } => l == location && format is Toml
                            && text_source_failed(format, code@, old(self).shape@),
                        Error::Yaml { message: _, location: l } => l == location && format is Yaml
                            && text_source_failed(format, code@, old(self).shape@),
                        Error::Merge(me) => {
                            &&& spec_text_raw(format, code@) matches Ok(rw)
                            &&& spec_of_raw(old(self).shape@, rw) matches Some(m)
                            &&& spec_merge(old(self).shape@, old(self).partial@, m) matches Err(p)
                                && me.field@ == p
                        },
                        _ => false,
                    }
                },
            },
    {
        let raw = match crate::text::parse_text(code, format) {
            Ok(raw) => raw,
            Err(message) => {
                return Err(
                    match format {
                        Format::Json => Error::Json { message, location },
                        Format::Jsonc => Error::Json { message, location },
                        Format::Toml => Error::Toml { message, location },
                        Format::Yaml => Error::Yaml { message, location },
                    },
                );
            },
        };
        let m = match Mirror::from_raw(&self.shape, &raw) {
            Ok(m) => m,
            Err(message) => {
                return Err(
                    match format {
                        Format::Json => Error::Json { message, location },
                        Format::Jsonc => Error::Json { message, location },
                        Format::Toml => Error::Toml { message, location },
                        Format::Yaml => Error::Yaml { message, location },
                    },
                );
            },
        };
        let ghost gm = m@;
        match self.add(m) {
            Ok(()) => {
                proof {
                    assert(spec_merge(old(self).shape@, old(self).partial@, gm) == Ok::<
                        SpecMirror,
                        Seq<char>,
                    >(self.partial@));
                }
                Ok(())
            },
            Err(e) => Err(e),
        }
    }

    /// The accumulated partial state.
    pub fn partial_state(&self) -> (r: &Mirror)
        ensures
            r == &self.partial,
    {
        &self.partial
    }

    /// Mutable access to the accumulated partial state without finishing.
    pub fn partial_state_mut(&mut self) -> (r: &mut Mirror)
        ensures
            *r == old(self).partial,
            final(self).partial == *final(r),
            final(self).shape == old(self).shape,
    {
        &mut self.partial
    }


    /// Consumes the loader: validates the accumulated state and produces
    /// the strict configuration value, or the full list of missing required
    /// field paths.
    pub fn finish(self) -> (r: Result<Conf, Error>)
        requires
            self.wf(),
        ensures
            match r {
                Ok(c) => spec_missing(self.shape@, self.partial@).len() == 0 && c@ == spec_finalize(
                    self.shape@,
                    self.partial@,
                ),
                Err(e) => {
                    &&& spec_missing(self.shape@, self.partial@).len() > 0
                    &&& e matches Error::FromPartial(fe) && paths_view(fe.missing_properties@)
                        == spec_missing(self.shape@, self.partial@)
                },
            },
    {
        match Conf::from_partial(&self.shape, self.partial) {
            Ok(c) => Ok(c),
            Err(e) => Err(Error::FromPartial(e)),
        }
    }
}

} // verus!
