use vstd::prelude::*;

use ron::ser::PrettyConfig;

verus! {

#[verifier::external_type_specification]
#[verifier::external_body]
pub struct ExPrettyConfig(PrettyConfig);

/// The depth limit of a pretty-printing configuration: its public field `depth_limit`.
pub uninterp spec fn pretty_depth_limit(config: PrettyConfig) -> usize;

/// The indentation text of a pretty-printing configuration: its public field `indentor`.
pub uninterp spec fn pretty_indentor(config: PrettyConfig) -> Seq<char>;

/// Whether every option of a pretty-printing configuration other than its depth limit and
/// its indentation text is as `ron::ser::PrettyConfig::default` sets it.
pub uninterp spec fn pretty_other_options_default(config: PrettyConfig) -> bool;

/// Four spaces.
pub open spec fn four_spaces() -> Seq<char> {
    seq![' ', ' ', ' ', ' ']
}

/// A default pretty-printing configuration, through `ron::ser::PrettyConfig::new`. The
/// claim, from its `Default` impl: no depth limit (`usize::MAX`), an indentation of four
/// spaces, and every other option at its default (`new` is `default`).
#[verifier::external_body]
fn pretty_config_new() -> (config: PrettyConfig)
    ensures
        pretty_depth_limit(config) == usize::MAX,
        pretty_indentor(config) == four_spaces(),
        pretty_other_options_default(config),
{
    PrettyConfig::new()
}

/// `config` with its depth limit set, through `ron::ser::PrettyConfig::depth_limit`. The
/// claim: the depth limit is the one given, and every other option is kept (the method
/// sets that one field).
#[verifier::external_body]
fn pretty_config_depth_limit(config: PrettyConfig, depth_limit: usize) -> (limited: PrettyConfig)
    ensures
        pretty_depth_limit(limited) == depth_limit,
        pretty_indentor(limited) == pretty_indentor(config),
        pretty_other_options_default(limited) == pretty_other_options_default(config),
{
    config.depth_limit(depth_limit)
}

/// `config` with its indentation text set, through `ron::ser::PrettyConfig::indentor`. The
/// claim: the indentation is the text given, and every other option is kept (the method
/// sets that one field).
#[verifier::external_body]
fn pretty_config_indentor(config: PrettyConfig, indentor: String) -> (indented: PrettyConfig)
    ensures
        pretty_indentor(indented) == indentor@,
        pretty_depth_limit(indented) == pretty_depth_limit(config),
        pretty_other_options_default(indented) == pretty_other_options_default(config),
{
    config.indentor(indentor)
}

/// The configurations used to write asset descriptions.
pub struct Serializers {
    pub ron_pretty_config: PrettyConfig,
}

impl Serializers {
    /// Pretty printing limited to two levels of nesting, indented by four spaces, with
    /// every other option at its default.
    pub fn new() -> (serializers: Self)
        ensures
            pretty_depth_limit(serializers.ron_pretty_config) == 2,
            pretty_indentor(serializers.ron_pretty_config) == four_spaces(),
            pretty_other_options_default(serializers.ron_pretty_config),
    {
        let indentor = "    ".to_owned();
        proof {
            reveal_strlit("    ");
            assert(indentor@ =~= four_spaces());
        }
        let ron_pretty_config = pretty_config_indentor(pretty_config_depth_limit(pretty_config_new(), 2), indentor);
        Serializers { ron_pretty_config }
    }
}

} // verus!
