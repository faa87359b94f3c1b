//! Wire bodies of the operational endpoint, and the health handler's pure
//! core.

use vstd::prelude::*;

use crate::config::AppEnv;
use crate::state::AppState;

verus! {

/// Wire form of the environment tag.
#[derive(Clone, Copy, PartialEq, Eq, Structural, Debug)]
pub enum EnvDto {
    Development,
    Production,
}

/// Body of the health endpoint.
#[derive(Clone, Copy, PartialEq, Eq, Structural, Debug)]
pub struct HealthResponse {
    pub ok: bool,
    pub env: EnvDto,
}

/// The health check itself: always ok, with the environment taken from the
/// shared settings.
pub fn health_response(state: &AppState) -> (r: HealthResponse)
    ensures
        r.ok == true,
        r.env == (match state.settings.app_env {
            AppEnv::Production => EnvDto::Production,
            AppEnv::Development => EnvDto::Development,
        }),
{
    let env = match state.settings.app_env {
        AppEnv::Production => EnvDto::Production,
        AppEnv::Development => EnvDto::Development,
    };
    HealthResponse { ok: true, env }
}

} // verus!
