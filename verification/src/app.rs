//! The configuration of the service, read from the variables of its
//! environment.

use crate::text::same_text;
use vstd::prelude::*;

verus! {

/// What the service is configured with.
#[derive(Debug, Clone)]
pub struct AppConfig {
    /// The address on which the service listens.
    pub rest_addr: String,
    /// The credential for the market-data provider.
    pub alpha_vantage_api_key: String,
    /// The model that writes the report.
    pub anthropic_model: String,
}

/// What an `AppConfig` holds, as plain values.
pub struct AppConfigView {
    pub rest_addr: Seq<char>,
    pub alpha_vantage_api_key: Seq<char>,
    pub anthropic_model: Seq<char>,
}

impl View for AppConfig {
    type V = AppConfigView;

    open spec fn view(&self) -> AppConfigView {
        AppConfigView {
            rest_addr: self.rest_addr@,
            alpha_vantage_api_key: self.alpha_vantage_api_key@,
            anthropic_model: self.anthropic_model@,
        }
    }
}

/// A variable that the service cannot start without.
#[derive(Clone, Copy, Debug, PartialEq, Eq, Structural)]
pub enum RequiredVariable {
    RestAddr,
    AlphaVantageApiKey,
    AnthropicModel,
}

/// The name under which a required variable stands in the environment.
pub open spec fn variable_name(variable: RequiredVariable) -> Seq<char> {
    match variable {
        RequiredVariable::RestAddr => "REST_ADDR"@,
        RequiredVariable::AlphaVantageApiKey => "ALPHA_VANTAGE_API_KEY"@,
        RequiredVariable::AnthropicModel => "ANTHROPIC_MODEL"@,
    }
}

/// The value of the first variable called `name`, if there is one.
pub open spec fn looked_up(vars: Seq<(Seq<char>, Seq<char>)>, name: Seq<char>) -> Option<
    Seq<char>,
>
    decreases vars.len(),
{
    if vars.len() == 0 {
        None
    } else if vars[0].0 == name {
        Some(vars[0].1)
    } else {
        looked_up(vars.drop_first(), name)
    }
}

/// The configuration that an environment gives, or the first required
/// variable that it lacks.
pub open spec fn configured(vars: Seq<(Seq<char>, Seq<char>)>) -> Result<
    AppConfigView,
    RequiredVariable,
> {
    match looked_up(vars, variable_name(RequiredVariable::RestAddr)) {
        None => Err(RequiredVariable::RestAddr),
        Some(rest_addr) => match looked_up(
            vars,
            variable_name(RequiredVariable::AlphaVantageApiKey),
        ) {
            None => Err(RequiredVariable::AlphaVantageApiKey),
            Some(alpha_vantage_api_key) => match looked_up(
                vars,
                variable_name(RequiredVariable::AnthropicModel),
            ) {
                None => Err(RequiredVariable::AnthropicModel),
                Some(anthropic_model) => Ok(
                    AppConfigView { rest_addr, alpha_vantage_api_key, anthropic_model },
                ),
            },
        },
    }
}

impl RequiredVariable {
    /// The name under which the variable stands in the environment.
    pub fn name(&self) -> (r: &'static str)
        ensures
            r@ == variable_name(*self),
    {
        match self {
            RequiredVariable::RestAddr => "REST_ADDR",
            RequiredVariable::AlphaVantageApiKey => "ALPHA_VANTAGE_API_KEY",
            RequiredVariable::AnthropicModel => "ANTHROPIC_MODEL",
        }
    }
}

/// The value of a required variable in `vars`, or the variable itself where
/// `vars` has none of its name.
pub fn get_required_env(vars: &Vec<(String, String)>, variable: RequiredVariable) -> (r: Result<
    String,
    RequiredVariable,
>)
    ensures
        match looked_up(vars.deep_view(), variable_name(variable)) {
            Some(value) => r matches Ok(found) && found@ == value,
            None => r == Err::<String, RequiredVariable>(variable),
        },
{
    let name = variable.name();
    let ghost all = vars.deep_view();
    let mut i: usize = 0;
    assert(all.skip(0) =~= all);
    while i < vars.len()
        invariant
            i <= vars.len(),
            all == vars.deep_view(),
            name@ == variable_name(variable),
            looked_up(all, name@) == looked_up(all.skip(i as int), name@),
        decreases vars.len() - i,
    {
        let entry = &vars[i];
        assert(all.skip(i as int)[0] == (entry.0@, entry.1@));
        assert(all.skip(i as int).drop_first() =~= all.skip(i + 1));
        if same_text(entry.0.as_str(), name) {
            return Ok(entry.1.clone());
        }
        i += 1;
    }
    Err(variable)
}

/// The first required variable that an environment lacks, of the address,
/// the provider's credential and the model, in this order; `None` where it
/// has all three.
pub fn missing_variable(vars: &Vec<(String, String)>) -> (r: Option<RequiredVariable>)
    ensures
        r == match configured(vars.deep_view()) {
            Ok(_) => None::<RequiredVariable>,
            Err(missing) => Some(missing),
        },
{
    if get_required_env(vars, RequiredVariable::RestAddr).is_err() {
        Some(RequiredVariable::RestAddr)
    } else if get_required_env(vars, RequiredVariable::AlphaVantageApiKey).is_err() {
        Some(RequiredVariable::AlphaVantageApiKey)
    } else if get_required_env(vars, RequiredVariable::AnthropicModel).is_err() {
        Some(RequiredVariable::AnthropicModel)
    } else {
        None
    }
}

impl AppConfig {
    /// The configuration that the variables of an environment give.
    ///
    /// The environment must hold all three required variables; whether it
    /// does, and which is the first that it lacks, `missing_variable` tells.
    pub fn from_env(vars: &Vec<(String, String)>) -> (r: AppConfig)
        requires
            configured(vars.deep_view()) is Ok,
        ensures
            r@ == configured(vars.deep_view())->Ok_0,
    {
        let rest_addr = get_required_env(vars, RequiredVariable::RestAddr).unwrap();
        let alpha_vantage_api_key = get_required_env(
            vars,
            RequiredVariable::AlphaVantageApiKey,
        ).unwrap();
        let anthropic_model = get_required_env(vars, RequiredVariable::AnthropicModel).unwrap();
        AppConfig { rest_addr, alpha_vantage_api_key, anthropic_model }
    }
}

} // verus!
