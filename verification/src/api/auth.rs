//! Who may do what: the bearer token, the tenant claim, and whose resources a caller may touch.
//!
//! The tenant of a caller comes with the authenticated request, never from a request body. Without a
//! configured token nobody is authenticated, and nothing is scoped.
use vstd::prelude::*;
use crate::api::error::ApiError;
use crate::api::error::FORBIDDEN;
use crate::api::error::UNAUTHORIZED;
use crate::ingest::validate;
use crate::scan;
use crate::text;

verus! {

/// The header that carries the tenant claim.
pub const TENANT_CLAIM_HEADER: &'static str = "x-tenant-id";

/// The header that carries a break-glass reference. It marks a privileged operation, which is
/// always audited; it grants nothing.
pub const BREAK_GLASS_HEADER: &'static str = "x-break-glass-ref";

/// What is left to do before a request may pass.
#[derive(Debug)]
pub enum Gate {
    /// Nothing.
    Open,
    /// The tenant claim has to be held against the approved pattern.
    CheckClaim(String),
}

/// The token of an `Authorization` header; empty where there is none.
pub open spec fn bearer(header: Option<Seq<char>>) -> Seq<char> {
    match header {
        Some(h) if scan::has_prefix(h, "Bearer "@) => h.skip("Bearer "@.len() as int),
        _ => Seq::empty(),
    }
}

/// Paths below which every request belongs to a tenant.
pub open spec fn tenant_scoped(path: Seq<char>) -> bool {
    scan::has_prefix(path, "/api/v1/"@) || scan::has_prefix(path, "/tiles/"@)
}

/// The claim without white space at its ends; empty where there is none.
pub open spec fn claimed(claim: Option<Seq<char>>) -> Seq<char> {
    match claim {
        Some(c) => scan::trimmed(c),
        None => Seq::empty(),
    }
}

fn bearer_token(header: Option<&str>) -> (s: String)
    ensures
        s@ == bearer(validate::opt_str(header)),
{
    match header {
        Some(h) => {
            if scan::starts_with(h, "Bearer ") {
                proof {
                    reveal_strlit("Bearer ");
                }
                let chars = text::to_chars(h);
                let rest = text::from_chars(chars.as_slice(), 7, chars.len());
                assert(rest@ =~= h@.skip(7));
                rest
            } else {
                String::new()
            }
        },
        None => String::new(),
    }
}

/// Comes before all routes: the bearer token has to match where one is configured, and
/// tenant-scoped routes need a tenant claim.
pub fn require_auth(
    expected: Option<&str>,
    authorization: Option<&str>,
    path: &str,
    claim: Option<&str>,
) -> (r: Result<Gate, ApiError>)
    ensures
        match expected {
            None => r matches Ok(Gate::Open),
            Some(token) => if bearer(validate::opt_str(authorization)) != token@ {
                r matches Err(e) && e.is(
                    UNAUTHORIZED,
                    "UNAUTHORIZED"@,
                    "missing or invalid bearer token"@,
                )
            } else if !tenant_scoped(path@) {
                r matches Ok(Gate::Open)
            } else if claimed(validate::opt_str(claim)).len() == 0 {
                r matches Err(e) && e.is(
                    UNAUTHORIZED,
                    "MISSING_TENANT_CLAIM"@,
                    "authenticated requests to tenant-scoped routes must carry the tenant claim header"@,
                )
            } else {
                r matches Ok(Gate::CheckClaim(c)) && c@ == claimed(validate::opt_str(claim))
            },
        },
{
    let token = match expected {
        Some(t) => t,
        None => {
            return Ok(Gate::Open);
        },
    };
    let given = bearer_token(authorization);
    if !text::str_equal(given.as_str(), token) {
        return Err(ApiError::unauthorized("missing or invalid bearer token".to_string()));
    }
    if !scan::starts_with(path, "/api/v1/") && !scan::starts_with(path, "/tiles/") {
        return Ok(Gate::Open);
    }
    let claim = match claim {
        Some(c) => scan::trim(c),
        None => String::new(),
    };
    if claim.as_str().is_empty() {
        return Err(
            ApiError::new(
                UNAUTHORIZED,
                "MISSING_TENANT_CLAIM",
                "authenticated requests to tenant-scoped routes must carry the tenant claim header".to_string(),
            ),
        );
    }
    Ok(Gate::CheckClaim(claim))
}

/// Goes on with a claim that was held against the approved pattern.
pub fn admit_claim(claim: &str, valid: bool, pattern: &str) -> (r: Result<(), ApiError>)
    ensures
        valid ==> r is Ok,
        !valid ==> (r matches Err(e) && e.is(
            UNAUTHORIZED,
            "INVALID_TENANT_CLAIM"@,
            "tenant claim "@ + text::debug_quoted(claim@) + " does not match "@ + pattern@,
        )),
{
    if valid {
        return Ok(());
    }
    let mut message = text::join2("tenant claim ", text::debug_text(claim).as_str());
    message.append(" does not match ");
    message.append(pattern);
    Err(ApiError::new(UNAUTHORIZED, "INVALID_TENANT_CLAIM", message))
}

/// The tenant that the caller is authorized for: the claim, where authentication is enabled.
pub fn authorized_tenant(auth_enabled: bool, claim: Option<&str>) -> (r: Option<String>)
    ensures
        match r {
            Some(t) => auth_enabled && validate::opt_str(claim) == Some(t@),
            None => !auth_enabled || claim is None,
        },
{
    if !auth_enabled {
        return None;
    }
    match claim {
        Some(c) => Some(c.to_string()),
        None => None,
    }
}

/// Whether a caller may touch a tenant's resources: an authenticated one only its own.
pub open spec fn may_touch(caller: Option<Seq<char>>, tenant: Seq<char>) -> bool {
    match caller {
        Some(c) => c == tenant,
        None => true,
    }
}

/// Whether a caller may touch a tenant's resources.
pub fn is_own(caller: Option<&str>, tenant: &str) -> (b: bool)
    ensures
        b == may_touch(validate::opt_str(caller), tenant@),
{
    match caller {
        Some(c) => text::str_equal(c, tenant),
        None => true,
    }
}

/// An access decision for the audit trail.
#[derive(Debug)]
pub struct AccessDecision {
    /// The caller's tenant.
    pub tenant_id: String,
    pub resource_type: String,
    pub resource_id: String,
    pub action: String,
    pub allowed: bool,
    pub reason: Option<String>,
}

impl AccessDecision {
    /// Whether the decision denies a caller a resource of another tenant.
    pub open spec fn denies(
        self,
        caller: Seq<char>,
        resource_type: Seq<char>,
        resource_id: Seq<char>,
    ) -> bool {
        &&& self.tenant_id@ == caller
        &&& self.resource_type@ == resource_type
        &&& self.resource_id@ == resource_id
        &&& self.action@ == "ACCESS"@
        &&& !self.allowed
        &&& self.reason matches Some(r) && r@ == "TENANT_MISMATCH"@
    }

    /// Whether the decision allows a caller a resource of its own.
    pub open spec fn allows(
        self,
        caller: Seq<char>,
        resource_type: Seq<char>,
        resource_id: Seq<char>,
    ) -> bool {
        &&& self.tenant_id@ == caller
        &&& self.resource_type@ == resource_type
        &&& self.resource_id@ == resource_id
        &&& self.action@ == "ACCESS"@
        &&& self.allowed
        &&& self.reason is None
    }

    pub fn deny(caller: &str, resource_type: &str, resource_id: &str) -> (d: Self)
        ensures
            d.denies(caller@, resource_type@, resource_id@),
    {
        AccessDecision {
            tenant_id: caller.to_string(),
            resource_type: resource_type.to_string(),
            resource_id: resource_id.to_string(),
            action: "ACCESS".to_string(),
            allowed: false,
            reason: Some("TENANT_MISMATCH".to_string()),
        }
    }

    pub fn allow(caller: &str, resource_type: &str, resource_id: &str) -> (d: Self)
        ensures
            d.allows(caller@, resource_type@, resource_id@),
    {
        AccessDecision {
            tenant_id: caller.to_string(),
            resource_type: resource_type.to_string(),
            resource_id: resource_id.to_string(),
            action: "ACCESS".to_string(),
            allowed: true,
            reason: None,
        }
    }
}

/// What goes to the audit trail of a request.
#[derive(Debug)]
pub enum Audit {
    /// An access decision.
    Decision(AccessDecision),
    /// A caller was denied a resource.
    Denied { tenant_id: String, resource: String },
}

impl Audit {
    /// Whether a denial is recorded.
    pub open spec fn records(self, tenant: Seq<char>, resource: Seq<char>) -> bool {
        self matches Audit::Denied { tenant_id, resource: r } && tenant_id@ == tenant && r@
            == resource
    }
}

/// An error together with what goes to the audit trail, if anything does.
#[derive(Debug)]
pub struct Refusal {
    pub error: ApiError,
    pub audit: Option<Audit>,
}

impl Refusal {
    /// Whether nothing but the error comes of it.
    pub open spec fn plain(self, status: u16, code: Seq<char>, message: Seq<char>) -> bool {
        self.error.is(status, code, message) && self.audit is None
    }

    pub fn of(error: ApiError) -> (r: Self)
        ensures
            r.error == error,
            r.audit is None,
    {
        Refusal { error, audit: None }
    }
}

/// The central rule on ownership. Authenticated callers may touch their own tenant's resources only;
/// attempts on others' are denied and audited under the caller's tenant. `false` says that there is
/// no identity to check.
pub fn check_tenant_access(
    caller: Option<&str>,
    resource_tenant: &str,
    resource_type: &str,
    resource_id: &str,
) -> (r: Result<bool, Refusal>)
    ensures
        match validate::opt_str(caller) {
            None => r == Result::<bool, Refusal>::Ok(false),
            Some(c) => if c == resource_tenant@ {
                r == Result::<bool, Refusal>::Ok(true)
            } else {
                r matches Err(d) && d.error.is(
                    FORBIDDEN,
                    "FORBIDDEN"@,
                    "tenant "@ + c + " cannot access "@ + resource_type@ + " owned by tenant "@
                        + resource_tenant@,
                ) && (d.audit matches Some(Audit::Decision(a)) && a.denies(
                    c,
                    resource_type@,
                    resource_id@,
                ))
            },
        },
{
    let caller = match caller {
        Some(c) => c,
        None => {
            return Ok(false);
        },
    };
    if text::str_equal(caller, resource_tenant) {
        return Ok(true);
    }
    let mut message = text::join3("tenant ", caller, " cannot access ");
    message.append(resource_type);
    message.append(" owned by tenant ");
    message.append(resource_tenant);
    Err(
        Refusal {
            error: ApiError::forbidden(message),
            audit: Some(
                Audit::Decision(AccessDecision::deny(caller, resource_type, resource_id)),
            ),
        },
    )
}

/// The break-glass reference of a header, if there is one to see.
pub open spec fn reference(header: Option<Seq<char>>) -> Option<Seq<char>> {
    match header {
        Some(h) => if scan::trimmed(h).len() > 0 {
            Some(scan::trimmed(h))
        } else {
            None
        },
        None => None,
    }
}

/// The text of a header without white space at its ends, if anything is left.
pub fn header_text(header: Option<&str>) -> (r: Option<String>)
    ensures
        match r {
            Some(s) => reference(validate::opt_str(header)) == Some(s@),
            None => reference(validate::opt_str(header)) is None,
        },
{
    match header {
        Some(h) => {
            let t = scan::trim(h);
            if t.as_str().is_empty() {
                None
            } else {
                Some(t)
            }
        },
        None => None,
    }
}

/// The break-glass reference of a request, if there is one.
pub fn break_glass_ref(header: Option<&str>) -> (r: Option<String>)
    ensures
        match r {
            Some(s) => reference(validate::opt_str(header)) == Some(s@),
            None => reference(validate::opt_str(header)) is None,
        },
{
    header_text(header)
}

/// A break-glass operation for the audit trail.
#[derive(Debug)]
pub struct BreakGlass {
    pub tenant_id: String,
    pub principal: Option<String>,
    pub reference: String,
    pub action: String,
}

/// What to audit of a break-glass operation: nothing where the request carries no reference.
pub fn audit_break_glass_if_present(
    header: Option<&str>,
    caller: Option<String>,
    tenant_id: &str,
    action: &str,
) -> (r: Option<BreakGlass>)
    ensures
        match reference(validate::opt_str(header)) {
            Some(s) => {
                &&& r matches Some(b)
                &&& b.tenant_id@ == tenant_id@
                &&& b.principal == caller
                &&& b.reference@ == s
                &&& b.action@ == action@
            },
            None => r is None,
        },
{
    match break_glass_ref(header) {
        Some(reference) => Some(
            BreakGlass {
                tenant_id: tenant_id.to_string(),
                principal: caller,
                reference,
                action: action.to_string(),
            },
        ),
        None => None,
    }
}

} // verus!
