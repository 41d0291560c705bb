//! Provider configuration, and the way from a selection to a model.
//!
//! Settings may hold invalid profiles, so that they can be repaired. A generation starts from a
//! profile that was found valid here.

use vstd::prelude::*;

use crate::deep::models;
use crate::llm::error::{configuration_error, ErrorKind, GatewayError, GatewayErrorModel};
use crate::llm::protocol::{
    result_model, standard_compatibility, CompatibilityProfile, Protocol,
};
use crate::text::{
    blank_iff_trimmed_empty, ends_with, is_blank, is_white_space, lemma_without_trailing,
    same_text, trim, trim_trailing, trimmed, trimming_cuts_white_space_off, without_trailing,
};

verus! {

broadcast use crate::deep::group_models;

pub type ProfileId = String;

pub type ModelId = String;

/// A text that must not show: renderings of it hide it.
#[derive(PartialEq, Eq)]
pub struct SecretString(String);

impl DeepView for SecretString {
    type V = Seq<char>;

    closed spec fn deep_view(&self) -> Seq<char> {
        self.0@
    }
}

impl Clone for SecretString {
    fn clone(&self) -> (copy: Self)
        ensures
            copy.deep_view() == self.deep_view(),
    {
        SecretString(self.0.clone())
    }
}

impl Default for SecretString {
    fn default() -> (secret: Self)
        ensures
            secret.deep_view() == Seq::<char>::empty(),
    {
        SecretString(String::new())
    }
}

impl SecretString {
    pub fn new(value: &str) -> (secret: Self)
        ensures
            secret.deep_view() == value@,
    {
        SecretString(value.to_owned())
    }

    pub fn expose(&self) -> (text: &str)
        ensures
            text@ == self.deep_view(),
    {
        self.0.as_str()
    }

    pub fn is_empty(&self) -> (empty: bool)
        ensures
            empty == (self.deep_view().len() == 0),
    {
        self.0.as_str().is_empty()
    }

    /// The rendering for people: the secret stays hidden.
    pub fn display_text(&self) -> (text: String)
        ensures
            text@ == "[REDACTED]"@,
    {
        "[REDACTED]".to_owned()
    }

    /// The rendering for logs: the secret stays hidden.
    pub fn debug_text(&self) -> (text: String)
        ensures
            text@ == "SecretString([REDACTED])"@,
    {
        "SecretString([REDACTED])".to_owned()
    }
}

/// A model of a provider. Without a `model_id` it is a draft.
#[derive(Debug, PartialEq, Eq)]
pub struct ModelConfig {
    pub id: String,
    pub model_id: String,
    pub display_name: Option<String>,
}

/// What a [`ModelConfig`] stands for.
pub struct ModelConfigModel {
    pub id: Seq<char>,
    pub model_id: Seq<char>,
    pub display_name: Option<Seq<char>>,
}

impl DeepView for ModelConfig {
    type V = ModelConfigModel;

    open spec fn deep_view(&self) -> ModelConfigModel {
        ModelConfigModel {
            id: self.id@,
            model_id: self.model_id@,
            display_name: self.display_name.deep_view(),
        }
    }
}

impl Clone for ModelConfig {
    fn clone(&self) -> (copy: Self)
        ensures
            copy.deep_view() == self.deep_view(),
    {
        ModelConfig {
            id: self.id.clone(),
            model_id: self.model_id.clone(),
            display_name: self.display_name.clone(),
        }
    }
}

impl Default for ModelConfig {
    fn default() -> (config: Self)
        ensures
            config.deep_view() == (ModelConfigModel {
                id: Seq::empty(),
                model_id: Seq::empty(),
                display_name: None,
            }),
    {
        ModelConfig {
            id: String::new(),
            model_id: String::new(),
            display_name: None,
        }
    }
}

/// The model that a generation is to use.
#[derive(Debug, PartialEq, Eq)]
pub struct ModelSelection {
    pub profile_id: String,
    pub model_id: String,
}

/// What a [`ModelSelection`] stands for.
pub struct ModelSelectionModel {
    pub profile_id: Seq<char>,
    pub model_id: Seq<char>,
}

impl DeepView for ModelSelection {
    type V = ModelSelectionModel;

    open spec fn deep_view(&self) -> ModelSelectionModel {
        ModelSelectionModel {
            profile_id: self.profile_id@,
            model_id: self.model_id@,
        }
    }
}

impl Clone for ModelSelection {
    fn clone(&self) -> (copy: Self)
        ensures
            copy.deep_view() == self.deep_view(),
    {
        ModelSelection {
            profile_id: self.profile_id.clone(),
            model_id: self.model_id.clone(),
        }
    }
}

impl Default for ModelSelection {
    fn default() -> (selection: Self)
        ensures
            selection.deep_view() == (ModelSelectionModel {
                profile_id: Seq::empty(),
                model_id: Seq::empty(),
            }),
    {
        ModelSelection {
            profile_id: String::new(),
            model_id: String::new(),
        }
    }
}

/// How a provider is reached, and the models it offers.
#[derive(PartialEq, Eq)]
pub struct ProviderProfile {
    pub id: ProfileId,
    pub name: String,
    pub base_url: String,
    pub api_key: SecretString,
    pub protocol: Protocol,
    pub compatibility: CompatibilityProfile,
    pub models: Vec<ModelConfig>,
}

/// What a [`ProviderProfile`] stands for.
pub struct ProviderProfileModel {
    pub id: Seq<char>,
    pub name: Seq<char>,
    pub base_url: Seq<char>,
    pub api_key: Seq<char>,
    pub protocol: Protocol,
    pub compatibility: CompatibilityProfile,
    pub models: Seq<ModelConfigModel>,
}

impl DeepView for ProviderProfile {
    type V = ProviderProfileModel;

    open spec fn deep_view(&self) -> ProviderProfileModel {
        ProviderProfileModel {
            id: self.id@,
            name: self.name@,
            base_url: self.base_url@,
            api_key: self.api_key.deep_view(),
            protocol: self.protocol,
            compatibility: self.compatibility,
            models: self.models.deep_view(),
        }
    }
}

impl Clone for ProviderProfile {
    fn clone(&self) -> (copy: Self)
        ensures
            copy.deep_view() == self.deep_view(),
    {
        let copy = ProviderProfile {
            id: self.id.clone(),
            name: self.name.clone(),
            base_url: self.base_url.clone(),
            api_key: self.api_key.clone(),
            protocol: self.protocol,
            compatibility: self.compatibility,
            models: self.models.clone(),
        };
        proof {
            assert(copy.models.deep_view() =~= self.models.deep_view());
        }
        copy
    }
}

impl Default for ProviderProfile {
    fn default() -> (profile: Self)
        ensures
            profile.deep_view() == (ProviderProfileModel {
                id: Seq::empty(),
                name: Seq::empty(),
                base_url: Seq::empty(),
                api_key: Seq::empty(),
                protocol: Protocol::ChatCompletions,
                compatibility: standard_compatibility(),
                models: Seq::empty(),
            }),
    {
        ProviderProfile {
            id: String::new(),
            name: String::new(),
            base_url: String::new(),
            api_key: SecretString::default(),
            protocol: Protocol::default(),
            compatibility: CompatibilityProfile::default(),
            models: Vec::new(),
        }
    }
}

/// The parts of a URL that a provider address is judged by.
#[derive(Debug, PartialEq)]
pub struct UrlParts {
    pub scheme: String,
    pub host: Option<String>,
    pub query: Option<String>,
    pub fragment: Option<String>,
    pub path: String,
}

/// What an [`UrlParts`] stands for.
pub struct UrlPartsModel {
    pub scheme: Seq<char>,
    pub host: Option<Seq<char>>,
    pub query: Option<Seq<char>>,
    pub fragment: Option<Seq<char>>,
    pub path: Seq<char>,
}

impl DeepView for UrlParts {
    type V = UrlPartsModel;

    open spec fn deep_view(&self) -> UrlPartsModel {
        UrlPartsModel {
            scheme: self.scheme@,
            host: self.host.deep_view(),
            query: self.query.deep_view(),
            fragment: self.fragment.deep_view(),
            path: self.path@,
        }
    }
}

/// What `url::Url::parse` finds in a text, if it accepts it as an absolute URL.
pub uninterp spec fn parsed_url(text: Seq<char>) -> Option<UrlPartsModel>;

/// `url::Url::parse`, and the parts of the URL by its getters `scheme`, `host_str`, `query`,
/// `fragment` and `path`: nothing where the text is no absolute URL. The result depends on the
/// text alone.
#[verifier::external_body]
fn parse_url(text: &str) -> (parts: Option<UrlParts>)
    ensures
        parts.deep_view() == parsed_url(text@),
{
    url::Url::parse(text).ok().map(
        |url| UrlParts {
            scheme: url.scheme().to_string(),
            host: url.host_str().map(str::to_string),
            query: url.query().map(str::to_string),
            fragment: url.fragment().map(str::to_string),
            path: url.path().to_string(),
        },
    )
}

/// The address of a provider as it is used: without white space around it and slashes at its end.
pub open spec fn base_of(base_url: Seq<char>) -> Seq<char> {
    without_trailing(trimmed(base_url), '/')
}

/// What is wrong with the parts of a provider address.
pub open spec fn base_url_error(parts: Option<UrlPartsModel>) -> Option<GatewayErrorModel> {
    match parts {
        None => Some(configuration_error("provider Base URL must be an absolute URL"@)),
        Some(url) => {
            let path = without_trailing(url.path, '/');
            if (url.scheme != "http"@ && url.scheme != "https"@) || url.host.is_none() {
                Some(configuration_error("provider Base URL must use http or https"@))
            } else if url.query.is_some() || url.fragment.is_some() {
                Some(
                    configuration_error(
                        "provider Base URL must not contain a query or fragment"@,
                    ),
                )
            } else if "/chat/completions"@.is_suffix_of(path) || "/responses"@.is_suffix_of(path) {
                Some(
                    configuration_error("provider Base URL must not include a protocol endpoint"@),
                )
            } else {
                None
            }
        },
    }
}

/// The address that requests are sent to, given the parts of the URL.
pub open spec fn checked_base_url(base: Seq<char>, parts: Option<UrlPartsModel>) -> Result<
    Seq<char>,
    GatewayErrorModel,
> {
    match base_url_error(parts) {
        Some(error) => Err(error),
        None => Ok(base),
    }
}

/// The address if the parts of its URL are those of a provider address.
pub fn check_base_url(base: String, parts: Option<UrlParts>) -> (result: Result<
    String,
    GatewayError,
>)
    ensures
        result_model(result) == checked_base_url(base@, parts.deep_view()),
{
    let url = match parts {
        Some(url) => url,
        None => {
            return Err(
                GatewayError::configuration("provider Base URL must be an absolute URL"),
            );
        },
    };
    let is_web = same_text(url.scheme.as_str(), "http") || same_text(url.scheme.as_str(), "https");
    if !is_web || url.host.is_none() {
        return Err(GatewayError::configuration("provider Base URL must use http or https"));
    }
    if url.query.is_some() || url.fragment.is_some() {
        return Err(
            GatewayError::configuration("provider Base URL must not contain a query or fragment"),
        );
    }
    let path = trim_trailing(url.path.as_str(), '/');
    if ends_with(path.as_str(), "/chat/completions") || ends_with(path.as_str(), "/responses") {
        return Err(
            GatewayError::configuration("provider Base URL must not include a protocol endpoint"),
        );
    }
    Ok(base)
}

/// The trimmed display name, unless nothing is left of it.
pub open spec fn display_of(model: ModelConfigModel) -> Option<Seq<char>> {
    match model.display_name {
        Some(name) => if trimmed(name).len() == 0 {
            None
        } else {
            Some(trimmed(name))
        },
        None => None,
    }
}

/// Whether the model is more than a draft.
pub open spec fn is_configured(model: ModelConfigModel) -> bool {
    trimmed(model.model_id).len() > 0
}

/// Whether an earlier model has the internal identifier of the one at `i`.
pub open spec fn repeats_id(models: Seq<ModelConfigModel>, i: int) -> bool {
    exists|j: int| 0 <= j < i && trimmed(#[trigger] models[j].id) == trimmed(models[i].id)
}

/// Whether another model has the display name of the one at `i`.
pub open spec fn shares_display_name(models: Seq<ModelConfigModel>, i: int) -> bool {
    display_of(models[i]).is_some() && exists|j: int|
        0 <= j < models.len() && j != i && display_of(#[trigger] models[j]) == display_of(models[i])
}

/// Whether another model has the upstream identifier of the one at `i`.
pub open spec fn shares_upstream_id(models: Seq<ModelConfigModel>, i: int) -> bool {
    is_configured(models[i]) && exists|j: int|
        0 <= j < models.len() && j != i && trimmed(#[trigger] models[j].model_id) == trimmed(
            models[i].model_id,
        )
}

/// What is wrong with the model at `i`.
pub open spec fn model_error(models: Seq<ModelConfigModel>, i: int) -> Option<GatewayErrorModel> {
    if trimmed(models[i].id).len() == 0 {
        Some(configuration_error("model ID must not be empty"@))
    } else if repeats_id(models, i) {
        Some(configuration_error("model IDs must be unique"@))
    } else if shares_display_name(models, i) {
        Some(configuration_error("model display names must be unique"@))
    } else if shares_upstream_id(models, i) {
        Some(configuration_error("upstream model IDs must be unique"@))
    } else {
        None
    }
}

/// What is wrong with the first bad model, from position `start` on.
pub open spec fn models_error(models: Seq<ModelConfigModel>, start: int) -> Option<
    GatewayErrorModel,
>
    decreases models.len() - start,
{
    if start < 0 || start >= models.len() {
        None
    } else {
        match model_error(models, start) {
            Some(error) => Some(error),
            None => models_error(models, start + 1),
        }
    }
}

/// Whether a model is more than a draft.
pub open spec fn has_configured_model(models: Seq<ModelConfigModel>) -> bool {
    exists|i: int| 0 <= i < models.len() && is_configured(#[trigger] models[i])
}

/// What is wrong with a profile, given the parts of the URL of its address.
pub open spec fn profile_error(
    profile: ProviderProfileModel,
    parts: Option<UrlPartsModel>,
) -> Option<GatewayErrorModel> {
    if trimmed(profile.id).len() == 0 {
        Some(configuration_error("provider ID must not be empty"@))
    } else if trimmed(profile.name).len() == 0 {
        Some(configuration_error("provider name must not be empty"@))
    } else {
        match base_url_error(parts) {
            Some(error) => Some(error),
            None => match models_error(profile.models, 0) {
                Some(error) => Some(error),
                None => if has_configured_model(profile.models) {
                    None
                } else {
                    Some(
                        configuration_error(
                            "provider must contain at least one configured model"@,
                        ),
                    )
                },
            },
        }
    }
}

/// What keeps a profile from being used.
pub open spec fn validity(profile: ProviderProfileModel) -> Option<GatewayErrorModel> {
    profile_error(profile, parsed_url(base_of(profile.base_url)))
}

/// In a profile without errors the models are told apart by their identifiers, and the configured
/// ones by their upstream identifiers.
pub proof fn valid_models_are_distinct(models: Seq<ModelConfigModel>, i: int, j: int)
    requires
        models_error(models, 0) is None,
        0 <= i < j < models.len(),
    ensures
        trimmed(models[i].id) != trimmed(models[j].id),
        is_configured(models[i]) ==> trimmed(models[i].model_id) != trimmed(models[j].model_id),
        display_of(models[i]).is_some() ==> display_of(models[i]) != display_of(models[j]),
{
    lemma_no_model_error(models, 0, i);
    lemma_no_model_error(models, 0, j);
    if trimmed(models[i].id) == trimmed(models[j].id) {
        assert(repeats_id(models, j));
    }
    if is_configured(models[i]) && trimmed(models[i].model_id) == trimmed(models[j].model_id) {
        assert(trimmed(models[j].model_id) == trimmed(models[i].model_id));
        assert(shares_upstream_id(models, i));
    }
    if display_of(models[i]).is_some() && display_of(models[i]) == display_of(models[j]) {
        assert(display_of(models[j]) == display_of(models[i]));
        assert(shares_display_name(models, i));
    }
}

proof fn lemma_no_model_error(models: Seq<ModelConfigModel>, start: int, i: int)
    requires
        models_error(models, start) is None,
        0 <= start <= i < models.len(),
    ensures
        model_error(models, i) is None,
    decreases i - start,
{
    if start < i {
        lemma_no_model_error(models, start + 1, i);
    }
}

/// The first configured model with the identifier, from position `start` on.
pub open spec fn find_model(models: Seq<ModelConfigModel>, id: Seq<char>, start: int) -> Option<
    ModelConfigModel,
>
    decreases models.len() - start,
{
    if start < 0 || start >= models.len() {
        None
    } else if models[start].id == id && is_configured(models[start]) {
        Some(models[start])
    } else {
        find_model(models, id, start + 1)
    }
}

pub open spec fn model_of(profile: ProviderProfileModel, id: Seq<char>) -> Result<
    ModelConfigModel,
    GatewayErrorModel,
> {
    match find_model(profile.models, id, 0) {
        Some(model) => Ok(model),
        None => Err(configuration_error("selected model is unavailable"@)),
    }
}

/// The first profile with the identifier, from position `start` on, or the number of profiles.
pub open spec fn profile_position(
    profiles: Seq<ProviderProfileModel>,
    id: Seq<char>,
    start: int,
) -> int
    decreases profiles.len() - start,
{
    if start < 0 || start >= profiles.len() || profiles[start].id == id {
        start
    } else {
        profile_position(profiles, id, start + 1)
    }
}

/// The profile and the model that a selection stands for.
pub open spec fn selected(
    profiles: Seq<ProviderProfileModel>,
    selection: ModelSelectionModel,
) -> Result<(ProviderProfileModel, ModelConfigModel), GatewayErrorModel> {
    let at = profile_position(profiles, selection.profile_id, 0);
    if at >= profiles.len() {
        Err(configuration_error("selected provider is unavailable"@))
    } else if profile_position(profiles, selection.profile_id, at + 1) < profiles.len() {
        Err(configuration_error("provider IDs must be unique"@))
    } else {
        match validity(profiles[at]) {
            Some(error) => Err(error),
            None => match model_of(profiles[at], selection.model_id) {
                Err(error) => Err(error),
                Ok(model) => Ok((profiles[at], model)),
            },
        }
    }
}

proof fn lemma_profile_position(profiles: Seq<ProviderProfileModel>, id: Seq<char>, start: int)
    requires
        0 <= start <= profiles.len(),
    ensures
        start <= profile_position(profiles, id, start) <= profiles.len(),
        profile_position(profiles, id, start) < profiles.len() ==> profiles[profile_position(
            profiles,
            id,
            start,
        )].id == id,
    decreases profiles.len() - start,
{
    if start < profiles.len() && profiles[start].id != id {
        lemma_profile_position(profiles, id, start + 1);
    }
}

proof fn lemma_found_model(models: Seq<ModelConfigModel>, id: Seq<char>, start: int)
    requires
        find_model(models, id, start) is Some,
    ensures
        find_model(models, id, start)->0.id == id,
        is_configured(find_model(models, id, start)->0),
    decreases models.len() - start,
{
    if 0 <= start < models.len() && !(models[start].id == id && is_configured(models[start])) {
        lemma_found_model(models, id, start + 1);
    }
}

/// A selection leads to what it names: a valid profile and a configured model of that profile.
pub proof fn selection_leads_to_what_it_names(
    profiles: Seq<ProviderProfileModel>,
    selection: ModelSelectionModel,
)
    requires
        selected(profiles, selection) is Ok,
    ensures
        selected(profiles, selection)->Ok_0.0.id == selection.profile_id,
        validity(selected(profiles, selection)->Ok_0.0) is None,
        selected(profiles, selection)->Ok_0.1.id == selection.model_id,
        is_configured(selected(profiles, selection)->Ok_0.1),
{
    lemma_profile_position(profiles, selection.profile_id, 0);
    let at = profile_position(profiles, selection.profile_id, 0);
    lemma_found_model(profiles[at].models, selection.model_id, 0);
}

fn trimmed_is_empty(text: &str) -> (empty: bool)
    ensures
        empty == (trimmed(text@).len() == 0),
{
    trim(text).as_str().is_empty()
}

fn display_name_of(model: &ModelConfig) -> (name: Option<String>)
    ensures
        name.deep_view() == display_of(model.deep_view()),
{
    match &model.display_name {
        Some(name) => {
            let name = trim(name.as_str());
            if name.as_str().is_empty() {
                None
            } else {
                Some(name)
            }
        },
        None => None,
    }
}

fn id_is_repeated(models: &Vec<ModelConfig>, i: usize) -> (yes: bool)
    requires
        i < models.len(),
    ensures
        yes == repeats_id(models.deep_view(), i as int),
{
    let ghost all = models.deep_view();
    let id = trim(models[i].id.as_str());
    let mut j: usize = 0;
    while j < i
        invariant
            all == models.deep_view(),
            i < models.len(),
            id@ == trimmed(all[i as int].id),
            j <= i,
            forall|k: int| 0 <= k < j ==> trimmed(#[trigger] all[k].id) != id@,
        decreases i - j,
    {
        if same_text(trim(models[j].id.as_str()).as_str(), id.as_str()) {
            proof {
                assert(trimmed(all[j as int].id) == trimmed(all[i as int].id));
            }
            return true;
        }
        j += 1;
    }
    false
}

fn display_name_is_shared(models: &Vec<ModelConfig>, i: usize) -> (yes: bool)
    requires
        i < models.len(),
    ensures
        yes == shares_display_name(models.deep_view(), i as int),
{
    let ghost all = models.deep_view();
    let name = match display_name_of(&models[i]) {
        Some(name) => name,
        None => {
            return false;
        },
    };
    let mut j: usize = 0;
    while j < models.len()
        invariant
            all == models.deep_view(),
            i < models.len(),
            display_of(all[i as int]) == Some(name@),
            j <= models.len(),
            forall|k: int|
                0 <= k < j && k != i ==> display_of(#[trigger] all[k]) != Some(name@),
        decreases models.len() - j,
    {
        if j != i {
            match display_name_of(&models[j]) {
                Some(other) => {
                    if same_text(other.as_str(), name.as_str()) {
                        proof {
                            assert(display_of(all[j as int]) == display_of(all[i as int]));
                        }
                        return true;
                    }
                },
                None => {},
            }
        }
        j += 1;
    }
    false
}

fn upstream_id_is_shared(models: &Vec<ModelConfig>, i: usize) -> (yes: bool)
    requires
        i < models.len(),
    ensures
        yes == shares_upstream_id(models.deep_view(), i as int),
{
    let ghost all = models.deep_view();
    let id = trim(models[i].model_id.as_str());
    if id.as_str().is_empty() {
        return false;
    }
    let mut j: usize = 0;
    while j < models.len()
        invariant
            all == models.deep_view(),
            i < models.len(),
            id@ == trimmed(all[i as int].model_id),
            id@.len() > 0,
            j <= models.len(),
            forall|k: int|
                0 <= k < j && k != i ==> trimmed(#[trigger] all[k].model_id) != id@,
        decreases models.len() - j,
    {
        if j != i && same_text(trim(models[j].model_id.as_str()).as_str(), id.as_str()) {
            proof {
                assert(trimmed(all[j as int].model_id) == trimmed(all[i as int].model_id));
            }
            return true;
        }
        j += 1;
    }
    false
}

fn check_models(models: &Vec<ModelConfig>) -> (result: Result<(), GatewayError>)
    ensures
        result_model(result) == (match models_error(models.deep_view(), 0) {
            Some(error) => Err::<(), GatewayErrorModel>(error),
            None => if has_configured_model(models.deep_view()) {
                Ok(())
            } else {
                Err(configuration_error("provider must contain at least one configured model"@))
            },
        }),
{
    let ghost all = models.deep_view();
    let mut configured = false;
    let mut i: usize = 0;
    while i < models.len()
        invariant
            all == models.deep_view(),
            i <= models.len(),
            models_error(all, 0) == models_error(all, i as int),
            configured == (exists|k: int| 0 <= k < i && is_configured(#[trigger] all[k])),
        decreases models.len() - i,
    {
        let model = &models[i];
        proof {
            assert(all[i as int] == model.deep_view());
        }
        if trimmed_is_empty(model.id.as_str()) {
            return Err(GatewayError::configuration("model ID must not be empty"));
        }
        if id_is_repeated(models, i) {
            return Err(GatewayError::configuration("model IDs must be unique"));
        }
        if display_name_is_shared(models, i) {
            return Err(GatewayError::configuration("model display names must be unique"));
        }
        if upstream_id_is_shared(models, i) {
            return Err(GatewayError::configuration("upstream model IDs must be unique"));
        }
        if !trimmed_is_empty(model.model_id.as_str()) {
            proof {
                assert(is_configured(all[i as int]));
            }
            configured = true;
        }
        i += 1;
    }
    if configured {
        Ok(())
    } else {
        Err(GatewayError::configuration("provider must contain at least one configured model"))
    }
}

impl ProviderProfile {
    /// What keeps the profile from being used, if anything does.
    ///
    /// Models without an upstream identifier are drafts. They may stay, but one model at least
    /// must be configured. The internal identifiers of all models, the display names and the
    /// upstream identifiers must each be unique, white space around them aside.
    pub fn validate(&self) -> (result: Result<(), GatewayError>)
        ensures
            result_model(result) == (match validity(self.deep_view()) {
                Some(error) => Err::<(), GatewayErrorModel>(error),
                None => Ok(()),
            }),
    {
        self.validate_parts(parse_url(self.base().as_str()))
    }

    fn base(&self) -> (base: String)
        ensures
            base@ == base_of(self.deep_view().base_url),
    {
        trim_trailing(trim(self.base_url.as_str()).as_str(), '/')
    }

    /// What keeps the profile from being used, given the parts of the URL of its address.
    pub fn validate_parts(&self, parts: Option<UrlParts>) -> (result: Result<(), GatewayError>)
        ensures
            result_model(result) == (match profile_error(self.deep_view(), parts.deep_view()) {
                Some(error) => Err::<(), GatewayErrorModel>(error),
                None => Ok(()),
            }),
    {
        if trimmed_is_empty(self.id.as_str()) {
            return Err(GatewayError::configuration("provider ID must not be empty"));
        }
        if trimmed_is_empty(self.name.as_str()) {
            return Err(GatewayError::configuration("provider name must not be empty"));
        }
        match check_base_url(String::new(), parts) {
            Ok(_) => {},
            Err(error) => {
                return Err(error);
            },
        }
        check_models(&self.models)
    }

    /// The address that requests are sent to.
    pub fn validated_base_url(&self) -> (result: Result<String, GatewayError>)
        ensures
            result_model(result) == checked_base_url(
                base_of(self.deep_view().base_url),
                parsed_url(base_of(self.deep_view().base_url)),
            ),
    {
        let base = self.base();
        let parts = parse_url(base.as_str());
        check_base_url(base, parts)
    }

    /// Whether no model but `excluding_id` has the upstream identifier.
    pub fn upstream_model_id_is_available(&self, upstream_id: &str, excluding_id: &str) -> (yes:
        bool)
        ensures
            yes == value_is_available(
                self.deep_view().models,
                upstream_id@,
                excluding_id@,
                ModelField::UpstreamId,
            ),
    {
        model_value_is_available(&self.models, upstream_id, excluding_id, ModelField::UpstreamId)
    }

    /// Whether no model but `excluding_id` has the display name.
    pub fn display_name_is_available(&self, display_name: &str, excluding_id: &str) -> (yes: bool)
        ensures
            yes == value_is_available(
                self.deep_view().models,
                display_name@,
                excluding_id@,
                ModelField::DisplayName,
            ),
    {
        model_value_is_available(&self.models, display_name, excluding_id, ModelField::DisplayName)
    }

    /// The configured model with the identifier.
    pub fn resolve_model(&self, id: &str) -> (result: Result<&ModelConfig, GatewayError>)
        ensures
            result_model(result) == model_of(self.deep_view(), id@),
    {
        let ghost all = self.models.deep_view();
        let mut i: usize = 0;
        while i < self.models.len()
            invariant
                all == self.models.deep_view(),
                i <= self.models.len(),
                find_model(all, id@, 0) == find_model(all, id@, i as int),
            decreases self.models.len() - i,
        {
            let model = &self.models[i];
            proof {
                assert(all[i as int] == model.deep_view());
            }
            if same_text(model.id.as_str(), id) && !trimmed_is_empty(model.model_id.as_str()) {
                return Ok(model);
            }
            i += 1;
        }
        Err(GatewayError::configuration("selected model is unavailable"))
    }
}

/// A value that models are told apart by.
#[derive(Clone, Copy, Debug, PartialEq, Eq, Structural)]
pub enum ModelField {
    UpstreamId,
    DisplayName,
}

pub open spec fn field_of(model: ModelConfigModel, field: ModelField) -> Option<Seq<char>> {
    match field {
        ModelField::UpstreamId => Some(model.model_id),
        ModelField::DisplayName => model.display_name,
    }
}

/// Whether a value is free for the model `excluding_id`. An empty value always is.
pub open spec fn value_is_available(
    models: Seq<ModelConfigModel>,
    candidate: Seq<char>,
    excluding_id: Seq<char>,
    field: ModelField,
) -> bool {
    trimmed(candidate).len() == 0 || forall|i: int|
        0 <= i < models.len() ==> (#[trigger] models[i]).id == excluding_id || field_of(
            models[i],
            field,
        ) is None || trimmed(field_of(models[i], field)->0) != trimmed(candidate)
}

fn model_value_is_available(
    models: &Vec<ModelConfig>,
    candidate: &str,
    excluding_id: &str,
    field: ModelField,
) -> (yes: bool)
    ensures
        yes == value_is_available(models.deep_view(), candidate@, excluding_id@, field),
{
    let ghost all = models.deep_view();
    let wanted = trim(candidate);
    if wanted.as_str().is_empty() {
        return true;
    }
    let mut i: usize = 0;
    while i < models.len()
        invariant
            all == models.deep_view(),
            i <= models.len(),
            wanted@ == trimmed(candidate@),
            wanted@.len() > 0,
            forall|k: int|
                0 <= k < i ==> (#[trigger] all[k]).id == excluding_id@ || field_of(
                    all[k],
                    field,
                ) is None || trimmed(field_of(all[k], field)->0) != wanted@,
        decreases models.len() - i,
    {
        let model = &models[i];
        proof {
            assert(all[i as int] == model.deep_view());
        }
        let same = match field {
            ModelField::UpstreamId => same_text(
                trim(model.model_id.as_str()).as_str(),
                wanted.as_str(),
            ),
            ModelField::DisplayName => match &model.display_name {
                Some(name) => same_text(trim(name.as_str()).as_str(), wanted.as_str()),
                None => false,
            },
        };
        if same && !same_text(model.id.as_str(), excluding_id) {
            return false;
        }
        i += 1;
    }
    true
}

fn seek_profile(profiles: &[ProviderProfile], id: &str, start: usize) -> (at: usize)
    requires
        start <= profiles@.len(),
    ensures
        at == profile_position(models(profiles@), id@, start as int),
        start <= at <= profiles@.len(),
{
    let ghost all = models(profiles@);
    let mut at = start;
    while at < profiles.len() && !same_text(profiles[at].id.as_str(), id)
        invariant
            all == models(profiles@),
            start <= at <= profiles@.len(),
            profile_position(all, id@, start as int) == profile_position(all, id@, at as int),
        decreases profiles@.len() - at,
    {
        at += 1;
    }
    at
}

/// The profile and the model that a selection stands for, as models.
pub open spec fn selection_model(
    result: Result<(&ProviderProfile, &ModelConfig), GatewayError>,
) -> Result<(ProviderProfileModel, ModelConfigModel), GatewayErrorModel> {
    match result {
        Ok((profile, model)) => Ok((profile.deep_view(), model.deep_view())),
        Err(error) => Err(error.deep_view()),
    }
}

/// The one profile with the identifier.
fn only_profile(profiles: &[ProviderProfile], id: &str) -> (result: Result<usize, GatewayError>)
    ensures
        match result {
            Ok(at) => at < profiles@.len() && at == profile_position(models(profiles@), id@, 0)
                && profile_position(models(profiles@), id@, at + 1) >= profiles@.len(),
            Err(error) => {
                let at = profile_position(models(profiles@), id@, 0);
                if at >= profiles@.len() {
                    error.deep_view() == configuration_error("selected provider is unavailable"@)
                } else {
                    &&& profile_position(models(profiles@), id@, at + 1) < profiles@.len()
                    &&& error.deep_view() == configuration_error("provider IDs must be unique"@)
                }
            },
        },
{
    let at = seek_profile(profiles, id, 0);
    if at >= profiles.len() {
        return Err(GatewayError::configuration("selected provider is unavailable"));
    }
    if seek_profile(profiles, id, at + 1) < profiles.len() {
        return Err(GatewayError::configuration("provider IDs must be unique"));
    }
    Ok(at)
}

pub fn resolve_selection<'a>(
    profiles: &'a [ProviderProfile],
    selection: &ModelSelection,
) -> (result: Result<(&'a ProviderProfile, &'a ModelConfig), GatewayError>)
    ensures
        selection_model(result) == selected(models(profiles@), selection.deep_view()),
{
    let at = match only_profile(profiles, selection.profile_id.as_str()) {
        Ok(at) => at,
        Err(error) => {
            return Err(error);
        },
    };
    let profile = &profiles[at];
    proof {
        assert(models(profiles@)[at as int] == profile.deep_view());
    }
    match profile.validate() {
        Ok(()) => {},
        Err(error) => {
            return Err(error);
        },
    }
    match profile.resolve_model(selection.model_id.as_str()) {
        Ok(model) => Ok((profile, model)),
        Err(error) => Err(error),
    }
}

/// The providers as they were at one moment. Each profile is judged once, when the snapshot is
/// made. Invalid profiles stay, so that settings can show them.
pub struct ProviderCatalogSnapshot {
    profiles: Vec<ProviderProfile>,
    validations: Vec<Result<(), GatewayError>>,
}

impl DeepView for ProviderCatalogSnapshot {
    type V = Seq<ProviderProfileModel>;

    closed spec fn deep_view(&self) -> Seq<ProviderProfileModel> {
        models(self.profiles@)
    }
}

/// Whether a result is the judgement of a profile.
pub open spec fn judges(result: Result<(), GatewayError>, profile: ProviderProfileModel) -> bool {
    result_model(result) == (match validity(profile) {
        Some(error) => Err::<(), GatewayErrorModel>(error),
        None => Ok(()),
    })
}

impl Clone for ProviderCatalogSnapshot {
    fn clone(&self) -> (copy: Self)
        ensures
            copy.deep_view() == self.deep_view(),
    {
        proof {
            use_type_invariant(self);
        }
        let profiles = self.profiles.clone();
        proof {
            assert(models(profiles@) =~= models(self.profiles@));
        }
        let mut validations: Vec<Result<(), GatewayError>> = Vec::new();
        let mut i: usize = 0;
        while i < self.validations.len()
            invariant
                i <= self.validations@.len(),
                self.validations@.len() == self.profiles@.len(),
                models(profiles@) == models(self.profiles@),
                profiles@.len() == self.profiles@.len(),
                forall|k: int|
                    0 <= k < self.profiles@.len() ==> judges(
                        #[trigger] self.validations@[k],
                        self.profiles@[k].deep_view(),
                    ),
                validations@.len() == i,
                forall|k: int|
                    0 <= k < i ==> judges(
                        #[trigger] validations@[k],
                        profiles@[k].deep_view(),
                    ),
            decreases self.validations@.len() - i,
        {
            let verdict = match &self.validations[i] {
                Ok(()) => Ok(()),
                Err(error) => Err(error.clone()),
            };
            proof {
                assert(judges(self.validations@[i as int], self.profiles@[i as int].deep_view()));
                assert(models(profiles@)[i as int] == models(self.profiles@)[i as int]);
            }
            validations.push(verdict);
            i += 1;
        }
        ProviderCatalogSnapshot { profiles, validations }
    }
}

impl ProviderCatalogSnapshot {
    #[verifier::type_invariant]
    spec fn well_formed(self) -> bool {
        &&& self.validations@.len() == self.profiles@.len()
        &&& forall|i: int|
            0 <= i < self.profiles@.len() ==> judges(
                #[trigger] self.validations@[i],
                self.profiles@[i].deep_view(),
            )
    }

    #[must_use]
    pub fn new(profiles: Vec<ProviderProfile>) -> (snapshot: Self)
        ensures
            snapshot.deep_view() == profiles.deep_view(),
    {
        let mut validations: Vec<Result<(), GatewayError>> = Vec::new();
        let mut i: usize = 0;
        while i < profiles.len()
            invariant
                i <= profiles.len(),
                validations@.len() == i,
                forall|k: int|
                    0 <= k < i ==> judges(
                        #[trigger] validations@[k],
                        profiles@[k].deep_view(),
                    ),
            decreases profiles.len() - i,
        {
            validations.push(profiles[i].validate());
            i += 1;
        }
        ProviderCatalogSnapshot { profiles, validations }
    }

    #[must_use]
    pub fn profiles(&self) -> (profiles: &[ProviderProfile])
        ensures
            models(profiles@) == self.deep_view(),
    {
        self.profiles.as_slice()
    }

    /// The profile and the model that a selection stands for. The judgement of the profile is
    /// that of the snapshot.
    pub fn resolve_selection(&self, selection: &ModelSelection) -> (result: Result<
        (&ProviderProfile, &ModelConfig),
        GatewayError,
    >)
        ensures
            selection_model(result) == selected(self.deep_view(), selection.deep_view()),
    {
        proof {
            use_type_invariant(self);
        }
        let at = match only_profile(self.profiles.as_slice(), selection.profile_id.as_str()) {
            Ok(at) => at,
            Err(error) => {
                return Err(error);
            },
        };
        let profile = &self.profiles[at];
        proof {
            assert(self.deep_view()[at as int] == profile.deep_view());
            assert(judges(self.validations@[at as int], profile.deep_view()));
        }
        match &self.validations[at] {
            Ok(()) => {},
            Err(error) => {
                return Err(error.clone());
            },
        }
        match profile.resolve_model(selection.model_id.as_str()) {
            Ok(model) => Ok((profile, model)),
            Err(error) => Err(error),
        }
    }
}

/// Whether the path of an address, whatever slashes stand behind it, ends in `name`.
pub open spec fn ends_in(path: Seq<char>, name: Seq<char>) -> bool {
    exists|front: Seq<char>, slashes: Seq<char>|
        path == #[trigger] (front + name + slashes) && only_slashes(slashes)
}

/// Whether a text is made of slashes.
pub open spec fn only_slashes(text: Seq<char>) -> bool {
    forall|i: int| 0 <= i < text.len() ==> #[trigger] text[i] == '/'
}

/// Whether an address can be the base of a provider: one of the web, without a query, a fragment
/// or the path of a protocol.
pub open spec fn is_base(parts: Option<UrlPartsModel>) -> bool {
    &&& parts is Some
    &&& parts->0.scheme == "http"@ || parts->0.scheme == "https"@
    &&& parts->0.host is Some
    &&& parts->0.query is None
    &&& parts->0.fragment is None
    &&& !ends_in(parts->0.path, "/chat/completions"@)
    &&& !ends_in(parts->0.path, "/responses"@)
}

proof fn lemma_ends_in(path: Seq<char>, name: Seq<char>)
    requires
        name.len() > 0,
        name.last() != '/',
    ensures
        name.is_suffix_of(without_trailing(path, '/')) <==> ends_in(path, name),
{
    let cut = without_trailing(path, '/');
    let slashes = lemma_slashes(path);
    if name.is_suffix_of(cut) {
        let front = cut.take(cut.len() - name.len());
        assert(cut =~= front + name);
        assert(path =~= front + name + slashes);
    }
    if ends_in(path, name) {
        let (front, rest) = choose|front: Seq<char>, rest: Seq<char>|
            path == #[trigger] (front + name + rest) && only_slashes(rest);
        lemma_cut_slashes(front + name, rest);
        assert((front + name).last() == name.last());
        assert((front + name).subrange(front.len() as int, (front + name).len() as int) =~= name);
    }
}

proof fn lemma_slashes(text: Seq<char>) -> (slashes: Seq<char>)
    ensures
        only_slashes(slashes),
        text == without_trailing(text, '/') + slashes,
    decreases text.len(),
{
    if text.len() > 0 && text.last() == '/' {
        let rest = lemma_slashes(text.drop_last());
        assert(text =~= text.drop_last().push('/'));
        assert(text =~= without_trailing(text, '/') + rest.push('/'));
        rest.push('/')
    } else {
        assert(text =~= without_trailing(text, '/') + Seq::<char>::empty());
        Seq::empty()
    }
}

proof fn lemma_cut_slashes(text: Seq<char>, slashes: Seq<char>)
    requires
        only_slashes(slashes),
        text.len() > 0,
        text.last() != '/',
    ensures
        without_trailing(text + slashes, '/') == text,
    decreases slashes.len(),
{
    if slashes.len() == 0 {
        assert(text + slashes =~= text);
    } else {
        assert((text + slashes).drop_last() =~= text + slashes.drop_last());
        assert((text + slashes).last() == '/');
        lemma_cut_slashes(text, slashes.drop_last());
    }
}

/// The base of an address is the address without the white space around it and without the
/// slashes behind it.
pub proof fn bases_lose_their_slashes(base_url: Seq<char>)
    ensures
        exists|before: Seq<char>, slashes: Seq<char>, after: Seq<char>|
            #![trigger before + base_of(base_url) + slashes + after]
            is_blank(before) && is_blank(after) && only_slashes(slashes) && base_url == before
                + base_of(base_url) + slashes + after,
        base_of(base_url).len() > 0 ==> base_of(base_url).last() != '/' && !is_white_space(
            base_of(base_url)[0],
        ),
{
    trimming_cuts_white_space_off(base_url);
    let inner = trimmed(base_url);
    let (before, after) = choose|before: Seq<char>, after: Seq<char>|
        is_blank(before) && is_blank(after) && base_url == #[trigger] (before + inner + after);
    let slashes = lemma_slashes(inner);
    assert(base_url =~= before + base_of(base_url) + slashes + after);
    lemma_without_trailing(inner, '/');
    if base_of(base_url).len() > 0 {
        assert(base_of(base_url)[0] == inner[0]);
    }
}

/// Whether two models of a profile can be told apart: by their identifiers, by the names that
/// they show, where they show one, and by their names upstream, where they have one.
pub open spec fn differ(a: ModelConfigModel, b: ModelConfigModel) -> bool {
    &&& trimmed(a.id) != trimmed(b.id)
    &&& a.display_name is Some && b.display_name is Some && trimmed(a.display_name->0).len() > 0
        ==> trimmed(a.display_name->0) != trimmed(b.display_name->0)
    &&& trimmed(a.model_id).len() > 0 ==> trimmed(a.model_id) != trimmed(b.model_id)
}

/// A profile is in order exactly where it and its provider have a name, its address can be a base,
/// each of its models has an identifier, no two of them can be confused, and one of them has a
/// name upstream.
pub proof fn profiles_in_order(profile: ProviderProfileModel, parts: Option<UrlPartsModel>)
    ensures
        profile_error(profile, parts) is None <==> {
            &&& !is_blank(profile.id)
            &&& !is_blank(profile.name)
            &&& is_base(parts)
            &&& forall|i: int|
                0 <= i < profile.models.len() ==> !is_blank((#[trigger] profile.models[i]).id)
            &&& forall|i: int, j: int|
                0 <= i < j < profile.models.len() ==> differ(profile.models[i], profile.models[j])
            &&& exists|i: int|
                0 <= i < profile.models.len() && !is_blank(
                    (#[trigger] profile.models[i]).model_id,
                )
        },
        profile_error(profile, parts) is Some ==> profile_error(profile, parts)->0.kind
            == ErrorKind::Configuration,
{
    let models = profile.models;
    blank_iff_trimmed_empty(profile.id);
    blank_iff_trimmed_empty(profile.name);
    lemma_base(parts);
    lemma_models_in_order(models);
    assert forall|i: int| 0 <= i < models.len() implies is_configured(#[trigger] models[i])
        == !is_blank(models[i].model_id) by {
        blank_iff_trimmed_empty(models[i].model_id);
    }
    if has_configured_model(models) {
        let i = choose|i: int| 0 <= i < models.len() && is_configured(#[trigger] models[i]);
        assert(!is_blank(models[i].model_id));
    }
    lemma_models_error_kind(models, 0);
}

proof fn lemma_models_error_kind(models: Seq<ModelConfigModel>, start: int)
    requires
        0 <= start <= models.len(),
    ensures
        models_error(models, start) is Some ==> models_error(models, start)->0.kind
            == ErrorKind::Configuration,
    decreases models.len() - start,
{
    if start < models.len() {
        lemma_models_error_kind(models, start + 1);
    }
}

proof fn lemma_base(parts: Option<UrlPartsModel>)
    ensures
        base_url_error(parts) is None <==> is_base(parts),
{
    reveal_strlit("/chat/completions");
    reveal_strlit("/responses");
    if parts is Some {
        lemma_ends_in(parts->0.path, "/chat/completions"@);
        lemma_ends_in(parts->0.path, "/responses"@);
    }
}

proof fn lemma_models_in_order(models: Seq<ModelConfigModel>)
    ensures
        models_error(models, 0) is None <==> {
            &&& forall|i: int| 0 <= i < models.len() ==> !is_blank((#[trigger] models[i]).id)
            &&& forall|i: int, j: int|
                0 <= i < j < models.len() ==> differ(models[i], models[j])
        },
{
    lemma_no_error(models, 0);
    assert forall|i: int| 0 <= i < models.len() implies (trimmed((#[trigger] models[i]).id).len()
        == 0) == is_blank(models[i].id) by {
        blank_iff_trimmed_empty(models[i].id);
    }
    if models_error(models, 0) is None {
        assert forall|i: int, j: int| 0 <= i < j < models.len() implies differ(
            models[i],
            models[j],
        ) by {
            assert(model_error(models, i) is None && model_error(models, j) is None);
            valid_models_are_distinct(models, i, j);
        }
        assert forall|i: int| 0 <= i < models.len() implies !is_blank((#[trigger] models[i]).id) by {
            assert(model_error(models, i) is None);
        }
    } else if (forall|i: int| 0 <= i < models.len() ==> !is_blank((#[trigger] models[i]).id))
        && forall|i: int, j: int| 0 <= i < j < models.len() ==> differ(models[i], models[j]) {
        let i = choose|i: int|
            0 <= i < models.len() && #[trigger] model_error(models, i) is Some;
        assert(!is_blank(models[i].id));
        if repeats_id(models, i) {
            let j = choose|j: int|
                0 <= j < i && trimmed(#[trigger] models[j].id) == trimmed(models[i].id);
            assert(differ(models[j], models[i]));
        }
        if shares_display_name(models, i) {
            let j = choose|j: int|
                0 <= j < models.len() && j != i && display_of(#[trigger] models[j]) == display_of(
                    models[i],
                );
            if j < i {
                assert(differ(models[j], models[i]));
            } else {
                assert(differ(models[i], models[j]));
            }
        }
        if shares_upstream_id(models, i) {
            let j = choose|j: int|
                0 <= j < models.len() && j != i && trimmed(#[trigger] models[j].model_id)
                    == trimmed(models[i].model_id);
            if j < i {
                assert(differ(models[j], models[i]));
            } else {
                assert(differ(models[i], models[j]));
            }
        }
    }
}

proof fn lemma_no_error(models: Seq<ModelConfigModel>, start: int)
    requires
        0 <= start <= models.len(),
    ensures
        models_error(models, start) is None <==> forall|i: int|
            start <= i < models.len() ==> #[trigger] model_error(models, i) is None,
    decreases models.len() - start,
{
    if start < models.len() {
        lemma_no_error(models, start + 1);
        assert(model_error(models, start) is None || model_error(models, start) is Some);
        if models_error(models, start) is None {
            assert forall|i: int| start <= i < models.len() implies #[trigger] model_error(
                models,
                i,
            ) is None by {
                if i > start {
                    assert(start + 1 <= i);
                }
            }
        }
    }
}

/// A selection leads to the first model with its identifier that has a name upstream, in the one
/// profile with its identifier, where that profile is in order.
pub proof fn selections_are_followed(
    profiles: Seq<ProviderProfileModel>,
    selection: ModelSelectionModel,
    at: int,
    model: int,
)
    requires
        0 <= at < profiles.len(),
        profiles[at].id == selection.profile_id,
        forall|k: int|
            0 <= k < profiles.len() && k != at ==> (#[trigger] profiles[k]).id
                != selection.profile_id,
        validity(profiles[at]) is None,
        0 <= model < profiles[at].models.len(),
        profiles[at].models[model].id == selection.model_id,
        !is_blank(profiles[at].models[model].model_id),
        forall|k: int|
            0 <= k < model ==> (#[trigger] profiles[at].models[k]).id != selection.model_id
                || is_blank(profiles[at].models[k].model_id),
    ensures
        selected(profiles, selection) == Ok::<
            (ProviderProfileModel, ModelConfigModel),
            GatewayErrorModel,
        >((profiles[at], profiles[at].models[model])),
{
    lemma_profile_at(profiles, selection.profile_id, 0, at);
    lemma_profile_at(profiles, selection.profile_id, at + 1, profiles.len() as int);
    lemma_model_at(profiles[at].models, selection.model_id, 0, model);
}

proof fn lemma_profile_at(
    profiles: Seq<ProviderProfileModel>,
    id: Seq<char>,
    start: int,
    at: int,
)
    requires
        0 <= start <= at <= profiles.len(),
        at < profiles.len() ==> profiles[at].id == id,
        forall|k: int| start <= k < at ==> (#[trigger] profiles[k]).id != id,
    ensures
        profile_position(profiles, id, start) == at,
    decreases at - start,
{
    if start < at {
        assert(profiles[start].id != id);
        lemma_profile_at(profiles, id, start + 1, at);
    }
}

proof fn lemma_model_at(models: Seq<ModelConfigModel>, id: Seq<char>, start: int, at: int)
    requires
        0 <= start <= at < models.len(),
        models[at].id == id,
        !is_blank(models[at].model_id),
        forall|k: int|
            start <= k < at ==> (#[trigger] models[k]).id != id || is_blank(models[k].model_id),
    ensures
        find_model(models, id, start) == Some(models[at]),
    decreases at - start,
{
    blank_iff_trimmed_empty(models[start].model_id);
    if start < at {
        assert(models[start].id != id || is_blank(models[start].model_id));
        lemma_model_at(models, id, start + 1, at);
    }
}

/// A selection is refused where no profile has its identifier, where two have it, where the
/// profile is not in order, and where no model with its identifier has a name upstream.
pub proof fn selections_are_refused(
    profiles: Seq<ProviderProfileModel>,
    selection: ModelSelectionModel,
    at: int,
    other: int,
)
    ensures
        (forall|k: int|
            0 <= k < profiles.len() ==> (#[trigger] profiles[k]).id != selection.profile_id)
            ==> selected(profiles, selection) is Err,
        0 <= at < other < profiles.len() && profiles[at].id == selection.profile_id
            && profiles[other].id == selection.profile_id ==> selected(profiles, selection) is Err,
        0 <= at < profiles.len() && profiles[at].id == selection.profile_id && validity(
            profiles[at],
        ) is Some ==> selected(profiles, selection) is Err,
        0 <= at < profiles.len() && profiles[at].id == selection.profile_id && (forall|k: int|
            0 <= k < profiles[at].models.len() ==> (#[trigger] profiles[at].models[k]).id
                != selection.model_id || is_blank(profiles[at].models[k].model_id)) ==> selected(
            profiles,
            selection,
        ) is Err,
{
    let id = selection.profile_id;
    if forall|k: int| 0 <= k < profiles.len() ==> (#[trigger] profiles[k]).id != id {
        lemma_profile_at(profiles, id, 0, profiles.len() as int);
    }
    if 0 <= at < profiles.len() && profiles[at].id == id {
        lemma_some_profile(profiles, id, 0, at);
        let first = profile_position(profiles, id, 0);
        if first < at {
            lemma_some_profile(profiles, id, first + 1, at);
        } else if at < other < profiles.len() && profiles[other].id == id {
            lemma_some_profile(profiles, id, at + 1, other);
        }
        if forall|k: int|
            0 <= k < profiles[at].models.len() ==> (#[trigger] profiles[at].models[k]).id
                != selection.model_id || is_blank(profiles[at].models[k].model_id) {
            lemma_no_model(profiles[at].models, selection.model_id, 0);
        }
    }
}

proof fn lemma_some_profile(
    profiles: Seq<ProviderProfileModel>,
    id: Seq<char>,
    start: int,
    at: int,
)
    requires
        0 <= start <= at < profiles.len(),
        profiles[at].id == id,
    ensures
        start <= profile_position(profiles, id, start) <= at,
    decreases at - start,
{
    if profiles[start].id != id {
        lemma_some_profile(profiles, id, start + 1, at);
    }
}

proof fn lemma_no_model(models: Seq<ModelConfigModel>, id: Seq<char>, start: int)
    requires
        0 <= start <= models.len(),
        forall|k: int|
            0 <= k < models.len() ==> (#[trigger] models[k]).id != id || is_blank(
                models[k].model_id,
            ),
    ensures
        find_model(models, id, start) is None,
    decreases models.len() - start,
{
    if start < models.len() {
        blank_iff_trimmed_empty(models[start].model_id);
        assert(models[start].id != id || is_blank(models[start].model_id));
        lemma_no_model(models, id, start + 1);
    }
}

/// A name that a model wants is free exactly where it is blank or no other model has it, white
/// space around it aside.
pub proof fn free_names_clash_with_none(
    models: Seq<ModelConfigModel>,
    candidate: Seq<char>,
    excluding_id: Seq<char>,
)
    ensures
        value_is_available(models, candidate, excluding_id, ModelField::UpstreamId) <==> (is_blank(
            candidate,
        ) || forall|i: int|
            0 <= i < models.len() && (#[trigger] models[i]).id != excluding_id ==> trimmed(
                models[i].model_id,
            ) != trimmed(candidate)),
        value_is_available(models, candidate, excluding_id, ModelField::DisplayName) <==> (is_blank(
            candidate,
        ) || forall|i: int|
            0 <= i < models.len() && (#[trigger] models[i]).id != excluding_id
                && models[i].display_name is Some ==> trimmed(models[i].display_name->0)
                != trimmed(candidate)),
{
    blank_iff_trimmed_empty(candidate);
}

} // verus!
