//! First-run bootstrap of the user's style and configuration files, and the
//! scripts injected into the surface on each readiness signal.
use vstd::prelude::*;
use crate::text::{escaped, push_escaped, push_str};

verus! {

/// What bootstrap does with one user asset, as plain values.
pub enum AssetPlan {
    /// The user's file exists: leave it alone.
    Keep,
    /// No user file: write these default contents.
    Seed(Seq<char>),
    /// No user file and no readable default: nothing to write.
    Unavailable,
}

/// What bootstrap does with one user asset.
#[derive(Clone, Debug)]
pub enum AssetAction {
    Keep,
    Seed(String),
    Unavailable,
}

impl View for AssetAction {
    type V = AssetPlan;

    open spec fn view(&self) -> AssetPlan {
        match self {
            AssetAction::Keep => AssetPlan::Keep,
            AssetAction::Seed(d) => AssetPlan::Seed(d@),
            AssetAction::Unavailable => AssetPlan::Unavailable,
        }
    }
}

/// The plan for an asset: never touch an existing user file; otherwise
/// seed it from the default when the default could be read.
pub open spec fn plan_spec(user_exists: bool, default: Option<Seq<char>>) -> AssetPlan {
    if user_exists {
        AssetPlan::Keep
    } else {
        match default {
            Some(d) => AssetPlan::Seed(d),
            None => AssetPlan::Unavailable,
        }
    }
}

/// The user file after carrying out a plan that succeeded.
pub open spec fn apply_plan(user: Option<Seq<char>>, p: AssetPlan) -> Option<Seq<char>> {
    match p {
        AssetPlan::Keep => user,
        AssetPlan::Seed(d) => Some(d),
        AssetPlan::Unavailable => user,
    }
}

/// The user file after one bootstrap run over it.
pub open spec fn bootstrap_spec(user: Option<Seq<char>>, default: Option<Seq<char>>) -> Option<Seq<char>> {
    apply_plan(user, plan_spec(user is Some, default))
}

/// Decides what bootstrap does with one asset.
pub fn plan_asset(user_exists: bool, default_contents: Option<String>) -> (r: AssetAction)
    ensures
        r@ == plan_spec(
            user_exists,
            match default_contents {
                Some(d) => Some(d@),
                None => None,
            },
        ),
{
    if user_exists {
        AssetAction::Keep
    } else {
        match default_contents {
            Some(d) => AssetAction::Seed(d),
            None => AssetAction::Unavailable,
        }
    }
}

/// Whether the user file exists once the action was carried out;
/// `written` tells whether writing the seeded default succeeded.
pub fn present_after(action: &AssetAction, written: bool) -> (r: bool)
    ensures
        r == match action@ {
            AssetPlan::Keep => true,
            AssetPlan::Seed(_) => written,
            AssetPlan::Unavailable => false,
        },
{
    match action {
        AssetAction::Keep => true,
        AssetAction::Seed(_) => written,
        AssetAction::Unavailable => false,
    }
}

/// The configuration document to inject: the user's file, or an empty
/// document when it could not be read.
pub fn resolve_config(read: Option<String>) -> (r: String)
    ensures
        r@ == match read {
            Some(c) => c@,
            None => "{}"@,
        },
{
    match read {
        Some(c) => c,
        None => {
            let mut s = String::new();
            push_str(&mut s, "{}");
            s
        },
    }
}

/// Bootstrap never alters a user file once it exists: a second run, after
/// any edit by the user, leaves the edited text in place, and a second run
/// without an edit changes nothing.
pub proof fn lemma_bootstrap_keeps_user_file(
    user: Option<Seq<char>>,
    first_default: Option<Seq<char>>,
    second_default: Option<Seq<char>>,
    edited: Seq<char>,
)
    requires
        bootstrap_spec(user, first_default) is Some,
    ensures
        bootstrap_spec(Some(edited), second_default) == Some(edited),
        bootstrap_spec(bootstrap_spec(user, first_default), second_default) == bootstrap_spec(user, first_default),
{
}

pub const STYLE_HEAD: &'static str = "(function(){ try { const head = document.head || document.getElementsByTagName('head')[0]; const link = document.createElement('link'); link.rel = 'stylesheet'; link.type = 'text/css'; link.href = '";

pub const STYLE_TAIL: &'static str = "'; head.appendChild(link); } catch (e) { console.error('Inject CSS failed', e); } })();";

pub const CONFIG_HEAD: &'static str = "(function(){ try { window.AetherConfig = Object.freeze(";

pub const CONFIG_TAIL: &'static str = "); window.dispatchEvent(new CustomEvent('config', { detail: window.AetherConfig })); } catch (e) { console.error('Inject config failed', e); } })();";

/// The script that appends a stylesheet link to `uri` to the document head.
pub open spec fn style_script(uri: Seq<char>) -> Seq<char> {
    STYLE_HEAD@ + escaped(uri) + STYLE_TAIL@
}

/// The script that freezes the configuration as a global object and raises
/// the `config` event with it.
pub open spec fn config_script(config: Seq<char>) -> Seq<char> {
    CONFIG_HEAD@ + config + CONFIG_TAIL@
}

/// The scripts of one readiness signal: the style link when a style
/// override exists, then always the configuration.
pub open spec fn injection_scripts(style_uri: Option<Seq<char>>, config: Seq<char>) -> Seq<Seq<char>> {
    match style_uri {
        Some(u) => seq![style_script(u), config_script(config)],
        None => seq![config_script(config)],
    }
}

/// The assets resolved at startup, injected on every readiness signal.
pub struct Injector {
    style_uri: Option<String>,
    config: String,
}

impl Injector {
    pub closed spec fn style_view(&self) -> Option<Seq<char>> {
        match self.style_uri {
            Some(u) => Some(u@),
            None => None,
        }
    }

    pub closed spec fn config_view(&self) -> Seq<char> {
        self.config@
    }

    /// `style_uri` is the address of the user's style file, used only when
    /// `style_present`; `config` is the resolved configuration document.
    pub fn new(style_present: bool, style_uri: String, config: String) -> (r: Injector)
        ensures
            r.style_view() == (if style_present {
                Some(style_uri@)
            } else {
                None::<Seq<char>>
            }),
            r.config_view() == config@,
    {
        Injector { style_uri: if style_present { Some(style_uri) } else { None }, config }
    }

    /// The scripts to run on the surface for one readiness signal.
    pub fn on_surface_ready(&self) -> (r: Vec<String>)
        ensures
            r@.map_values(|s: String| s@) == injection_scripts(self.style_view(), self.config_view()),
    {
        let mut out: Vec<String> = Vec::new();
        match &self.style_uri {
            Some(u) => {
                let mut s = String::new();
                push_str(&mut s, STYLE_HEAD);
                push_escaped(&mut s, u.as_str());
                push_str(&mut s, STYLE_TAIL);
                out.push(s);
            },
            None => {},
        }
        let mut c = String::new();
        push_str(&mut c, CONFIG_HEAD);
        push_str(&mut c, self.config.as_str());
        push_str(&mut c, CONFIG_TAIL);
        out.push(c);
        assert(out@.map_values(|s: String| s@) =~= injection_scripts(self.style_view(), self.config_view()));
        out
    }
}

/// Every readiness signal ends with the configuration script, built from
/// the same document, so two signals raise `config` with identical payloads.
pub proof fn lemma_config_event_stable(style_uri: Option<Seq<char>>, config: Seq<char>)
    ensures
        injection_scripts(style_uri, config).last() == config_script(config),
        injection_scripts(style_uri, config).len() >= 1,
        injection_scripts(style_uri, config).len() == if style_uri is Some { 2int } else { 1int },
{
}

} // verus!
