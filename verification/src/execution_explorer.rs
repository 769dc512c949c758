//! Execution Explorer: one read contract over events, debug state and
//! session comparison, guarded by a deny-by-default permission check.

use vstd::prelude::*;
use vstd::std_specs::iter::IteratorSpec;
use crate::text::{dec, dec_string, debug_str, debug_str_text, push_str};

verus! {

/// Coarse-grained permissions for Execution Explorer operations.
#[derive(Debug, Clone, Copy, PartialEq, Eq, Hash, Structural)]
pub enum Permission {
    /// Read events (canonical, cursor-paginated).
    ReadEvents,
    /// Read debug state (memory, registers, expressions).
    ReadDebug,
    /// Read session comparison + regression audit.
    ReadCompare,
}

pub open spec fn permission_label_spec(p: Permission) -> Seq<char> {
    match p {
        Permission::ReadEvents => "read_events"@,
        Permission::ReadDebug => "read_debug"@,
        Permission::ReadCompare => "read_compare"@,
    }
}

/// The bit that stands for a permission inside a `Permissions` set.
pub open spec fn permission_bit(p: Permission) -> u8 {
    match p {
        Permission::ReadEvents => 1u8,
        Permission::ReadDebug => 2u8,
        Permission::ReadCompare => 4u8,
    }
}

impl Permission {
    /// Human-readable label for diagnostics / error messages.
    pub fn label(&self) -> (r: &'static str)
        ensures
            r@ == permission_label_spec(*self),
    {
        match self {
            Permission::ReadEvents => "read_events",
            Permission::ReadDebug => "read_debug",
            Permission::ReadCompare => "read_compare",
        }
    }

    fn bit(&self) -> (b: u8)
        ensures
            b == permission_bit(*self),
    {
        match self {
            Permission::ReadEvents => 1u8,
            Permission::ReadDebug => 2u8,
            Permission::ReadCompare => 4u8,
        }
    }
}

/// Set of permissions granted to a requester, as a bit set.
#[derive(Debug, Clone, Copy, PartialEq, Eq, Hash, Structural)]
pub struct Permissions {
    bits: u8,
}

/// The permissions in canonical order.
pub open spec fn canonical_order() -> Seq<Permission> {
    seq![Permission::ReadEvents, Permission::ReadDebug, Permission::ReadCompare]
}

impl Permissions {
    /// The raw bit set (what a denial reports as `granted_bits`).
    pub closed spec fn spec_bits(self) -> u8 {
        self.bits
    }

    /// Whether the set holds `p`.
    pub open spec fn spec_grants(self, p: Permission) -> bool {
        self.spec_bits() & permission_bit(p) != 0
    }

    /// The permissions of the set, in canonical order.
    pub open spec fn spec_members(self) -> Seq<Permission> {
        canonical_order().filter(|p: Permission| self.spec_grants(p))
    }

    /// The raw bit set.
    pub fn bits(&self) -> (b: u8)
        ensures
            b == self.spec_bits(),
    {
        self.bits
    }

    /// The empty set: grants nothing.
    pub fn empty() -> (p: Self)
        ensures
            p.spec_bits() == 0,
            forall|q: Permission| !p.spec_grants(q),
    {
        assert(0u8 & 1u8 == 0 && 0u8 & 2u8 == 0 && 0u8 & 4u8 == 0) by (bit_vector);
        Permissions { bits: 0 }
    }

    /// The set holding exactly the permissions listed in `perms`.
    pub fn from_permissions(perms: &[Permission]) -> (p: Self)
        ensures
            forall|q: Permission| p.spec_grants(q) <==> perms@.contains(q),
            p.spec_bits() & 0xf8u8 == 0,
    {
        let mut bits: u8 = 0;
        let mut i: usize = 0;
        assert(0u8 & 1u8 == 0 && 0u8 & 2u8 == 0 && 0u8 & 4u8 == 0 && 0u8 & 0xf8u8 == 0) by (bit_vector);
        while i < perms.len()
            invariant
                0 <= i <= perms@.len(),
                bits & 0xf8u8 == 0,
                forall|q: Permission|
                    (bits & #[trigger] permission_bit(q) != 0) <==> (exists|j: int| 0 <= j < i && perms@[j] == q),
            decreases perms@.len() - i,
        {
            let b = perms[i].bit();
            let old_bits = bits;
            bits = bits | b;
            assert forall|q: Permission|
                (bits & #[trigger] permission_bit(q) != 0) <==> (exists|j: int| 0 <= j < i + 1 && perms@[j] == q) by {
                let qb = permission_bit(q);
                if q == perms@[i as int] {
                    assert(qb == b);
                    assert((old_bits | b) & b != 0) by (bit_vector)
                        requires b == 1u8 || b == 2u8 || b == 4u8;
                } else {
                    assert(qb != b);
                    assert((old_bits | b) & qb != 0 <==> old_bits & qb != 0) by (bit_vector)
                        requires
                            b == 1u8 || b == 2u8 || b == 4u8,
                            qb == 1u8 || qb == 2u8 || qb == 4u8,
                            qb != b;
                }
            }
            assert(bits & 0xf8u8 == 0) by (bit_vector)
                requires
                    bits == old_bits | b,
                    old_bits & 0xf8u8 == 0,
                    b == 1u8 || b == 2u8 || b == 4u8;
            i += 1;
        }
        let p = Permissions { bits };
        assert forall|q: Permission| p.spec_grants(q) <==> perms@.contains(q) by {
            if perms@.contains(q) {
                let j = choose|j: int| 0 <= j < perms@.len() && perms@[j] == q;
                assert(exists|j: int| 0 <= j < i && perms@[j] == q);
            }
        }
        p
    }

    /// Whether this permission set grants `required`.
    pub fn grants(&self, required: Permission) -> (r: bool)
        ensures
            r == self.spec_grants(required),
    {
        let bit = required.bit();
        (self.bits & bit) != 0
    }

    /// `Ok(())` iff `granted` holds every permission of `required`; otherwise
    /// the denial names the first missing permission, the granted bits and the
    /// labels of the whole required set.
    pub fn check_required(granted: Permissions, required: &[Permission]) -> (r: Result<(), PermissionDenied>)
        ensures
            r is Ok <==> (forall|i: int| 0 <= i < required@.len() ==> granted.spec_grants(#[trigger] required@[i])),
            r matches Err(d) ==> {
                &&& exists|k: int|
                    0 <= k < required@.len() && #[trigger] required@[k] == d.missing
                        && !granted.spec_grants(required@[k])
                        && (forall|j: int| 0 <= j < k ==> granted.spec_grants(#[trigger] required@[j]))
                &&& d.granted_bits == granted.spec_bits()
                &&& d.required@.len() == required@.len()
                &&& forall|j: int| 0 <= j < required@.len() ==> #[trigger] d.required@[j]@ == permission_label_spec(required@[j])
            },
    {
        let mut i: usize = 0;
        while i < required.len()
            invariant
                0 <= i <= required@.len(),
                forall|j: int| 0 <= j < i ==> granted.spec_grants(#[trigger] required@[j]),
            decreases required@.len() - i,
        {
            let perm = required[i];
            if !granted.grants(perm) {
                let labels = required_labels(required);
                return Err(PermissionDenied { missing: perm, granted_bits: granted.bits, required: labels });
            }
            i += 1;
        }
        Ok(())
    }

    /// The set grants nothing.
    pub fn is_empty(&self) -> (b: bool)
        ensures
            b == (self.spec_bits() == 0),
    {
        self.bits == 0
    }

    /// The permissions present in this set, in canonical order.
    pub fn to_vec(&self) -> (v: Vec<Permission>)
        ensures
            v@ == self.spec_members(),
    {
        let mut result: Vec<Permission> = Vec::new();
        let ghost members = self.spec_members();
        reveal_with_fuel(Seq::filter, 4);
        assert(canonical_order().drop_last().drop_last().drop_last() =~= Seq::<Permission>::empty());
        assert(canonical_order().drop_last().drop_last() =~= seq![Permission::ReadEvents]);
        assert(canonical_order().drop_last() =~= seq![Permission::ReadEvents, Permission::ReadDebug]);
        if (self.bits & 0b0000_0001) != 0 {
            result.push(Permission::ReadEvents);
        }
        if (self.bits & 0b0000_0010) != 0 {
            result.push(Permission::ReadDebug);
        }
        if (self.bits & 0b0000_0100) != 0 {
            result.push(Permission::ReadCompare);
        }
        assert(result@ =~= members);
        result
    }

    /// Iterator over the permissions present in this set, in canonical order.
    pub fn iter(&self) -> (it: std::vec::IntoIter<Permission>)
        ensures
            it.remaining() == self.spec_members(),
    {
        let v = self.to_vec();
        let it = v.into_iter();
        proof {
            broadcast use vstd::std_specs::vec::axiom_spec_into_iter;
        }
        it
    }
}

impl Default for Permissions {
    fn default() -> (p: Self)
        ensures
            p.spec_bits() == 0,
    {
        Permissions { bits: 0 }
    }
}

/// Labels of a required permission list, in order.
fn required_labels(required: &[Permission]) -> (labels: Vec<String>)
    ensures
        labels@.len() == required@.len(),
        forall|j: int| 0 <= j < required@.len() ==> #[trigger] labels@[j]@ == permission_label_spec(required@[j]),
{
    let mut labels: Vec<String> = Vec::new();
    let mut i: usize = 0;
    while i < required.len()
        invariant
            0 <= i <= required@.len(),
            labels@.len() == i,
            forall|j: int| 0 <= j < i ==> #[trigger] labels@[j]@ == permission_label_spec(required@[j]),
        decreases required@.len() - i,
    {
        let l = required[i].label();
        labels.push(l.to_owned());
        i += 1;
    }
    labels
}

/// Returned when a request lacks the permission required for an action.
#[derive(Debug, Clone)]
pub struct PermissionDenied {
    pub missing: Permission,
    pub granted_bits: u8,
    pub required: Vec<String>,
}

/// Action kind for an Execution Explorer request.
#[derive(Debug, Clone, Copy, PartialEq, Eq, Structural)]
pub enum ExecutionExplorerAction {
    /// Read events with cursor pagination. Requires `ReadEvents`.
    ReadEvents,
    /// Read memory snapshot. Requires `ReadDebug`.
    ReadMemory,
    /// Read register snapshot. Requires `ReadDebug`.
    ReadRegisters,
    /// Evaluate expression in session context. Requires `ReadDebug`.
    EvaluateExpression,
    /// Read session comparison / regression audit. Requires `ReadCompare`.
    ReadCompare,
}

/// The single permission each action requires.
pub open spec fn required_permission_spec(a: ExecutionExplorerAction) -> Permission {
    match a {
        ExecutionExplorerAction::ReadEvents => Permission::ReadEvents,
        ExecutionExplorerAction::ReadMemory => Permission::ReadDebug,
        ExecutionExplorerAction::ReadRegisters => Permission::ReadDebug,
        ExecutionExplorerAction::EvaluateExpression => Permission::ReadDebug,
        ExecutionExplorerAction::ReadCompare => Permission::ReadCompare,
    }
}

pub open spec fn action_label_spec(a: ExecutionExplorerAction) -> Seq<char> {
    match a {
        ExecutionExplorerAction::ReadEvents => "read_events"@,
        ExecutionExplorerAction::ReadMemory => "read_memory"@,
        ExecutionExplorerAction::ReadRegisters => "read_registers"@,
        ExecutionExplorerAction::EvaluateExpression => "evaluate_expression"@,
        ExecutionExplorerAction::ReadCompare => "read_compare"@,
    }
}

impl ExecutionExplorerAction {
    /// Permissions required to perform this action (never empty).
    pub fn required_permissions(&self) -> (r: &'static [Permission])
        ensures
            r@ == seq![required_permission_spec(*self)],
    {
        match self {
            ExecutionExplorerAction::ReadEvents => {
                let r: &'static [Permission] = &[Permission::ReadEvents];
                assert(r@ =~= seq![Permission::ReadEvents]);
                r
            },
            ExecutionExplorerAction::ReadMemory => {
                let r: &'static [Permission] = &[Permission::ReadDebug];
                assert(r@ =~= seq![Permission::ReadDebug]);
                r
            },
            ExecutionExplorerAction::ReadRegisters => {
                let r: &'static [Permission] = &[Permission::ReadDebug];
                assert(r@ =~= seq![Permission::ReadDebug]);
                r
            },
            ExecutionExplorerAction::EvaluateExpression => {
                let r: &'static [Permission] = &[Permission::ReadDebug];
                assert(r@ =~= seq![Permission::ReadDebug]);
                r
            },
            ExecutionExplorerAction::ReadCompare => {
                let r: &'static [Permission] = &[Permission::ReadCompare];
                assert(r@ =~= seq![Permission::ReadCompare]);
                r
            },
        }
    }

    /// Action label (snake_case for JSON Schema / logs).
    pub fn label(&self) -> (r: &'static str)
        ensures
            r@ == action_label_spec(*self),
    {
        match self {
            ExecutionExplorerAction::ReadEvents => "read_events",
            ExecutionExplorerAction::ReadMemory => "read_memory",
            ExecutionExplorerAction::ReadRegisters => "read_registers",
            ExecutionExplorerAction::EvaluateExpression => "evaluate_expression",
            ExecutionExplorerAction::ReadCompare => "read_compare",
        }
    }
}

/// Unified Execution Explorer request.
#[derive(Debug, Clone)]
pub struct ExecutionExplorerRequest {
    /// Action kind.
    pub action: ExecutionExplorerAction,
    /// Permissions granted to the caller (from auth context).
    pub granted_permissions: Permissions,
    /// Optional session identifier (None = current session).
    pub session_id: Option<String>,
    /// Optional cursor (for `ReadEvents`).
    pub cursor: Option<String>,
    /// Optional limit (for `ReadEvents`).
    pub limit: Option<usize>,
}

/// Result of an Execution Explorer request: a payload, or a denial that
/// carries no data.
#[derive(Debug, Clone)]
pub enum ExecutionExplorerResult {
    /// Payload returned by the underlying read service.
    Payload(String),
    /// Permission denied: never returns data, never silently truncates.
    Denied(PermissionDenied),
}

/// Error reserved for unexpected dispatch failures.
#[derive(Debug, Clone)]
pub enum ExecutionExplorerError {
    /// Dispatch failed.
    DispatchFailed(String),
}

/// `{:?}` of an optional string: `None`, or `Some(` and the quoted,
/// escaped string and `)`.
pub open spec fn opt_str_debug(o: Option<Seq<char>>) -> Seq<char> {
    match o {
        Some(s) => "Some("@ + debug_str_text(s) + ")"@,
        None => "None"@,
    }
}

/// `{:?}` of an optional count: `None`, or `Some(` and the decimal and `)`.
pub open spec fn opt_count_debug(o: Option<usize>) -> Seq<char> {
    match o {
        Some(n) => "Some("@ + dec(n as nat) + ")"@,
        None => "None"@,
    }
}

/// The dispatch stub of a permitted request:
/// `stub:action={label} session_id={:?} cursor={:?} limit={:?}`.
pub open spec fn explorer_stub_text(
    action_label: Seq<char>,
    session_id: Option<Seq<char>>,
    cursor: Option<Seq<char>>,
    limit: Option<usize>,
) -> Seq<char> {
    "stub:action="@ + action_label + " session_id="@ + opt_str_debug(session_id) + " cursor="@ + opt_str_debug(cursor)
        + " limit="@ + opt_count_debug(limit)
}

pub open spec fn opt_view(o: Option<String>) -> Option<Seq<char>> {
    match o {
        Some(s) => Some(s@),
        None => None,
    }
}

fn push_opt_str(s: &mut String, o: &Option<String>)
    ensures
        final(s)@ == old(s)@ + opt_str_debug(opt_view(*o)),
{
    match o {
        Some(v) => {
            push_str(s, "Some(");
            let d = debug_str(v.as_str());
            push_str(s, d.as_str());
            push_str(s, ")");
            proof {
                reveal_strlit("Some(");
                reveal_strlit(")");
                assert(final(s)@ =~= old(s)@ + opt_str_debug(opt_view(*o)));
            }
        },
        None => {
            push_str(s, "None");
            proof {
                reveal_strlit("None");
            }
        },
    }
}

fn push_opt_count(s: &mut String, o: Option<usize>)
    ensures
        final(s)@ == old(s)@ + opt_count_debug(o),
{
    match o {
        Some(n) => {
            push_str(s, "Some(");
            let d = dec_string(n as u64);
            push_str(s, d.as_str());
            push_str(s, ")");
            proof {
                reveal_strlit("Some(");
                reveal_strlit(")");
                assert(final(s)@ =~= old(s)@ + opt_count_debug(o));
            }
        },
        None => {
            push_str(s, "None");
            proof {
                reveal_strlit("None");
            }
        },
    }
}

/// The dispatch stub of a permitted request, built piece by piece.
fn stub_text(label: &str, session_id: &Option<String>, cursor: &Option<String>, limit: Option<usize>) -> (s: String)
    ensures
        s@ == explorer_stub_text(label@, opt_view(*session_id), opt_view(*cursor), limit),
{
    let mut s = "stub:action=".to_owned();
    push_str(&mut s, label);
    push_str(&mut s, " session_id=");
    push_opt_str(&mut s, session_id);
    push_str(&mut s, " cursor=");
    push_opt_str(&mut s, cursor);
    push_str(&mut s, " limit=");
    push_opt_count(&mut s, limit);
    proof {
        reveal_strlit("stub:action=");
        reveal_strlit(" session_id=");
        reveal_strlit(" cursor=");
        reveal_strlit(" limit=");
        assert(s@ =~= explorer_stub_text(label@, opt_view(*session_id), opt_view(*cursor), limit));
    }
    s
}

/// What `process` answers `req`: a payload (the stub of the action) when
/// the granted permissions include the action's required permission, and
/// otherwise a denial naming that permission and carrying no data.
pub open spec fn process_outcome(
    req: ExecutionExplorerRequest,
    r: Result<ExecutionExplorerResult, ExecutionExplorerError>,
) -> bool {
    &&& r is Ok
    &&& req.granted_permissions.spec_grants(required_permission_spec(req.action)) ==> (r matches Ok(
        ExecutionExplorerResult::Payload(p),
    ) && p@ == explorer_stub_text(
        action_label_spec(req.action),
        opt_view(req.session_id),
        opt_view(req.cursor),
        req.limit,
    ))
    &&& !req.granted_permissions.spec_grants(required_permission_spec(req.action)) ==> (r matches Ok(
        ExecutionExplorerResult::Denied(d),
    ) && d.missing == required_permission_spec(req.action) && d.granted_bits == req.granted_permissions.spec_bits()
        && d.required@.len() == 1 && d.required@[0]@ == permission_label_spec(required_permission_spec(req.action)))
}

/// Unified service entry point: a deny-by-default permission check runs
/// before any other work.
pub struct ExecutionExplorerService;

impl ExecutionExplorerService {
    pub fn new() -> (s: Self)
        ensures
            s == ExecutionExplorerService,
    {
        ExecutionExplorerService
    }

    /// Process a request: `Denied` (never a payload) when the granted
    /// permissions lack the action's required permission, else the stub
    /// payload for the action.
    pub fn process(&self, req: &ExecutionExplorerRequest) -> (r: Result<ExecutionExplorerResult, ExecutionExplorerError>)
        ensures
            r is Ok,
            req.granted_permissions.spec_grants(required_permission_spec(req.action)) ==> (r matches Ok(
                ExecutionExplorerResult::Payload(p),
            ) && p@ == explorer_stub_text(
                action_label_spec(req.action),
                opt_view(req.session_id),
                opt_view(req.cursor),
                req.limit,
            )),
            !req.granted_permissions.spec_grants(required_permission_spec(req.action)) ==> (r matches Ok(
                ExecutionExplorerResult::Denied(d),
            ) && d.missing == required_permission_spec(req.action)
                && d.granted_bits == req.granted_permissions.spec_bits()
                && d.required@.len() == 1
                && d.required@[0]@ == permission_label_spec(required_permission_spec(req.action))),
            process_outcome(*req, r),
    {
        let required = req.action.required_permissions();
        match Permissions::check_required(req.granted_permissions, required) {
            Err(denied) => {
                assert(required@[0] == required_permission_spec(req.action));
                Ok(ExecutionExplorerResult::Denied(denied))
            },
            Ok(()) => {
                let label = req.action.label();
                Ok(ExecutionExplorerResult::Payload(stub_text(label, &req.session_id, &req.cursor, req.limit)))
            },
        }
    }
}

impl Default for ExecutionExplorerService {
    fn default() -> (s: Self) {
        ExecutionExplorerService
    }
}

/// Deny-by-default: a request is answered with data only when its granted
/// permissions include the permission its action requires; a set that
/// grants nothing is denied for every action.
pub proof fn law_deny_by_default(granted: Permissions, action: ExecutionExplorerAction)
    ensures
        granted.spec_bits() == 0 ==> !granted.spec_grants(required_permission_spec(action)),
        seq![required_permission_spec(action)].len() > 0,
{
    let b = permission_bit(required_permission_spec(action));
    assert(0u8 & 1u8 == 0 && 0u8 & 2u8 == 0 && 0u8 & 4u8 == 0) by (bit_vector);
}

/// Who is answered: the debug actions (memory, registers, expression
/// evaluation) are answered with a payload exactly when `ReadDebug` is
/// granted, reading events exactly when `ReadEvents` is, and comparing
/// exactly when `ReadCompare` is; a denial names a permission that was not
/// granted.
pub proof fn law_permission_classes(
    req: ExecutionExplorerRequest,
    r: Result<ExecutionExplorerResult, ExecutionExplorerError>,
)
    requires
        process_outcome(req, r),
    ensures
        (req.action == ExecutionExplorerAction::ReadMemory || req.action == ExecutionExplorerAction::ReadRegisters
            || req.action == ExecutionExplorerAction::EvaluateExpression) ==> ((r matches Ok(
            ExecutionExplorerResult::Payload(_),
        )) <==> req.granted_permissions.spec_grants(Permission::ReadDebug)),
        req.action == ExecutionExplorerAction::ReadEvents ==> ((r matches Ok(ExecutionExplorerResult::Payload(_)))
            <==> req.granted_permissions.spec_grants(Permission::ReadEvents)),
        req.action == ExecutionExplorerAction::ReadCompare ==> ((r matches Ok(ExecutionExplorerResult::Payload(_)))
            <==> req.granted_permissions.spec_grants(Permission::ReadCompare)),
        r matches Ok(ExecutionExplorerResult::Denied(d)) ==> !req.granted_permissions.spec_grants(d.missing),
{
}

} // verus!
