//! Configuration record of the tool and the load-or-create decision.
//!
//! The configuration is persisted in a sidecar file next to the executable.
//! Reading that file and decoding its text are done outside the library; the
//! library receives the outcome of that attempt as a [`SidecarRead`] and
//! decides, totally and without failing, which configuration the run uses
//! and whether the defaults have to be written back.

use vstd::prelude::*;

verus! {

/// The settings of one batch run.
///
/// A width or height of zero means "no resize"; the resize step runs only
/// when both are nonzero. The channel fields are signed deltas added to
/// every pixel's red, green and blue channel with saturation; zero means
/// "no change". `extensao` is the file extension given to every output.
#[derive(Clone, Debug)]
pub struct Config {
    pub largura: u32,
    pub altura: u32,
    pub manter_proporcao: bool,
    pub espelhamento_horizontal: bool,
    pub espelhamento_vertical: bool,
    pub vermelho: i32,
    pub verde: i32,
    pub azul: i32,
    pub extensao: String,
}

/// Holds exactly of the configuration the tool falls back to: no resize,
/// no mirroring, no channel change, outputs named `.jpg`.
pub open spec fn is_default_config(c: Config) -> bool {
    &&& c.largura == 0
    &&& c.altura == 0
    &&& !c.manter_proporcao
    &&& !c.espelhamento_horizontal
    &&& !c.espelhamento_vertical
    &&& c.vermelho == 0
    &&& c.verde == 0
    &&& c.azul == 0
    &&& c.extensao@ == "jpg"@
}

impl PartialEq for Config {
    fn eq(&self, other: &Config) -> (r: bool) {
        self.largura == other.largura && self.altura == other.altura
            && self.manter_proporcao == other.manter_proporcao
            && self.espelhamento_horizontal == other.espelhamento_horizontal
            && self.espelhamento_vertical == other.espelhamento_vertical
            && self.vermelho == other.vermelho && self.verde == other.verde
            && self.azul == other.azul && self.extensao == other.extensao
    }
}

impl vstd::std_specs::cmp::PartialEqSpecImpl for Config {
    open spec fn obeys_eq_spec() -> bool {
        true
    }

    open spec fn eq_spec(&self, other: &Config) -> bool {
        &&& self.largura == other.largura
        &&& self.altura == other.altura
        &&& self.manter_proporcao == other.manter_proporcao
        &&& self.espelhamento_horizontal == other.espelhamento_horizontal
        &&& self.espelhamento_vertical == other.espelhamento_vertical
        &&& self.vermelho == other.vermelho
        &&& self.verde == other.verde
        &&& self.azul == other.azul
        &&& self.extensao@ == other.extensao@
    }
}

impl Default for Config {
    /// The configuration used when the sidecar file is missing or corrupt.
    fn default() -> (r: Config)
        ensures
            is_default_config(r),
    {
        Config {
            largura: 0,
            altura: 0,
            manter_proporcao: false,
            espelhamento_horizontal: false,
            espelhamento_vertical: false,
            vermelho: 0,
            verde: 0,
            azul: 0,
            extensao: String::from_str("jpg"),
        }
    }
}

/// What reading and decoding the sidecar file produced, handed to the
/// library by the caller that did the I/O.
pub enum SidecarRead {
    /// No file was found at the sidecar path, or it could not be read.
    Missing,
    /// The file was read but its text did not decode into a configuration.
    Malformed,
    /// The file decoded into this configuration.
    Parsed(Config),
}

/// Which path `load_or_create` took, so that callers can log it and decide
/// whether the default configuration has to be persisted.
#[derive(PartialEq, Eq, Structural, Clone, Copy, Debug)]
pub enum LoadOutcome {
    /// The sidecar file supplied the configuration.
    Loaded,
    /// The file existed but was corrupt; the default configuration is used.
    CorruptFallback,
    /// The file was absent or unreadable; the default configuration is used.
    IoErrorFallback,
}

impl LoadOutcome {
    /// True when the run fell back to the defaults, which should then be
    /// written back to the sidecar path.
    pub fn needs_persist(&self) -> (r: bool)
        ensures
            r == (*self != LoadOutcome::Loaded),
    {
        match self {
            LoadOutcome::Loaded => false,
            LoadOutcome::CorruptFallback => true,
            LoadOutcome::IoErrorFallback => true,
        }
    }
}

/// Resolves the configuration of a run from what the sidecar read produced.
///
/// A successfully decoded configuration is used as it stands; malformed
/// content and a missing or unreadable file both fall back to the default
/// configuration, distinguished only by the reported outcome. The function
/// is total: no sidecar state is an error to the caller.
pub fn load_or_create(read: SidecarRead) -> (r: (Config, LoadOutcome))
    ensures
        read matches SidecarRead::Parsed(c) ==> r.0 == c && r.1 == LoadOutcome::Loaded,
        read is Malformed ==> is_default_config(r.0) && r.1 == LoadOutcome::CorruptFallback,
        read is Missing ==> is_default_config(r.0) && r.1 == LoadOutcome::IoErrorFallback,
        r.1 is Loaded <==> read is Parsed,
{
    match read {
        SidecarRead::Parsed(c) => (c, LoadOutcome::Loaded),
        SidecarRead::Malformed => (Config::default(), LoadOutcome::CorruptFallback),
        SidecarRead::Missing => (Config::default(), LoadOutcome::IoErrorFallback),
    }
}

} // verus!
