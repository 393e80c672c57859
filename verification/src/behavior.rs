use vstd::prelude::*;

verus! {

/// Identifies a loaded behaviour script: its position in the order of loading.
#[derive(Clone, Copy, PartialEq, Eq, Structural, Hash, Debug)]
pub struct BehaviorHandle(usize);

impl BehaviorHandle {
    /// The position of the script in the order of loading.
    pub closed spec fn spec_index(self) -> usize {
        self.0
    }

    /// The position of the script in the order of loading.
    pub fn index(&self) -> (i: usize)
        ensures
            i == self.spec_index(),
    {
        self.0
    }
}

/// Whether `bytes` can be the output of a successful compilation: the Luau
/// compiler marks a failed compilation by a zero first byte, and `mlua`
/// reports such output as an error.
pub open spec fn is_compiled_form(bytes: Seq<u8>) -> bool {
    !(bytes.len() > 0 && bytes[0] == 0)
}

/// Whether `bytecode` is an output that the Luau compiler, with its default
/// options, gave for the script text `source`: a compiled form, or an error
/// report that starts with a zero byte. This is a relation, not a function
/// of the text: what the compiler gives also depends on process-wide
/// compiler feature flags.
pub uninterp spec fn compiled_from(source: Seq<char>, bytecode: Seq<u8>) -> bool;

/// The compiler rejected the text `source`: it gave an error report for it.
pub open spec fn rejected(source: Seq<char>) -> bool {
    exists|b: Seq<u8>| compiled_from(source, b) && !is_compiled_form(b)
}

/// Compiles a script text with `mlua::Compiler` under its default options.
/// Trusted: a result that is returned is the compiler's output for the given
/// text and does not start with the zero byte by which the compiler marks an
/// error; `None` comes back exactly when the compiler's output for the text
/// starts with that zero byte. Which bytes come back, and whether the text
/// compiles at all, is not stated: both also depend on process-wide compiler
/// feature flags.
#[verifier::external_body]
fn compile_source(source: &str) -> (r: Option<Vec<u8>>)
    ensures
        r matches Some(b) ==> compiled_from(source@, b@) && is_compiled_form(b@),
        r is None ==> rejected(source@),
{
    mlua::Compiler::new().compile(source).ok()
}

/// The update to send for script `index` when its file now holds `source`:
/// the index with the compiled text, or `None` when the compiler rejects the
/// text.
pub fn script_update(index: usize, source: &str) -> (u: Option<(usize, Vec<u8>)>)
    ensures
        u matches Some(upd) ==> upd.0 == index && compiled_from(source@, upd.1@)
            && is_compiled_form(upd.1@),
        u is None ==> rejected(source@),
{
    match compile_source(source) {
        Some(bytecode) => Some((index, bytecode)),
        None => None,
    }
}

/// One loaded script: where it was read from, its current compiled form, and
/// the identity of that compiled form.
struct BehaviorEntry {
    path: String,
    bytecode: Vec<u8>,
    code: u64,
}

/// What the registry knows of one script.
pub struct EntryView {
    pub path: Seq<char>,
    pub bytecode: Seq<u8>,
    pub code: u64,
}

/// The registry as a value: the scripts in the order of loading, and the
/// identity that the next compiled form will receive.
pub struct ManagerView {
    pub entries: Seq<EntryView>,
    pub next_code: u64,
}

/// The registry of loaded behaviour scripts.
///
/// Every compiled form that the registry hands out gets an identity (a code)
/// that no other compiled form has had before; an instance runs the compiled
/// form whose code it carries, and hot reload moves exactly the instances that
/// run a script's current compiled form to the new one.
pub struct BehaviorManager {
    entries: Vec<BehaviorEntry>,
    next_code: u64,
}

impl BehaviorEntry {
    spec fn view_entry(self) -> EntryView {
        EntryView { path: self.path@, bytecode: self.bytecode@, code: self.code }
    }
}

impl BehaviorManager {
    /// Codes identify compiled forms (see `ManagerView::wf`).
    #[verifier::type_invariant]
    closed spec fn inv(self) -> bool {
        self@.wf()
    }
}

spec fn entries_view(es: Seq<BehaviorEntry>) -> Seq<EntryView> {
    es.map_values(|e: BehaviorEntry| e.view_entry())
}

impl View for BehaviorManager {
    type V = ManagerView;

    closed spec fn view(&self) -> ManagerView {
        ManagerView {
            entries: entries_view(self.entries@),
            next_code: self.next_code,
        }
    }
}

/// Which compiled form an instance of a behaviour runs: the script it was
/// attached from and the code of the compiled form.
#[derive(Clone, Copy, PartialEq, Eq, Structural, Debug)]
pub struct InstanceCode {
    pub handle: BehaviorHandle,
    pub code: u64,
}

/// A script received a new compiled form: instances that ran `old_code` of
/// that script move to `new_code`, whose bytes are `bytecode`.
#[derive(Clone, Debug)]
pub struct BehaviorReloadEvent {
    pub handle: BehaviorHandle,
    pub old_code: u64,
    pub new_code: u64,
    pub bytecode: Vec<u8>,
}

/// A reload event as a value.
pub struct ReloadView {
    pub handle: usize,
    pub old_code: u64,
    pub new_code: u64,
    pub bytecode: Seq<u8>,
}

impl View for BehaviorReloadEvent {
    type V = ReloadView;

    open spec fn view(&self) -> ReloadView {
        ReloadView {
            handle: self.handle.spec_index(),
            old_code: self.old_code,
            new_code: self.new_code,
            bytecode: self.bytecode@,
        }
    }
}

/// The values of a list of reload events.
pub open spec fn events_view(evs: Seq<BehaviorReloadEvent>) -> Seq<ReloadView> {
    evs.map_values(|e: BehaviorReloadEvent| e@)
}

/// The values of a list of `(script index, compiled bytes)` updates.
pub open spec fn updates_view(ups: Seq<(usize, Vec<u8>)>) -> Seq<(usize, Seq<u8>)> {
    ups.map_values(|u: (usize, Vec<u8>)| (u.0, u.1@))
}

/// An optional position as an optional integer.
pub open spec fn position_view(p: Option<usize>) -> Option<int> {
    match p {
        Some(i) => Some(i as int),
        None => None,
    }
}

/// Whether an instance moves along with a reload event: it runs the compiled
/// form that the event replaces.
pub open spec fn reload_matches(inst: InstanceCode, ev: ReloadView) -> bool {
    inst.handle.spec_index() == ev.handle && inst.code == ev.old_code
}

/// An instance after the reload events `evs`, taken in order, together with
/// the position of the last event that moved it.
pub open spec fn instance_after_reloads(inst: InstanceCode, evs: Seq<ReloadView>) -> (
    InstanceCode,
    Option<int>,
)
    decreases evs.len(),
{
    if evs.len() == 0 {
        (inst, None)
    } else {
        let prev = instance_after_reloads(inst, evs.drop_last());
        let ev = evs.last();
        if reload_matches(prev.0, ev) {
            (InstanceCode { handle: prev.0.handle, code: ev.new_code }, Some(evs.len() - 1))
        } else {
            prev
        }
    }
}

impl ManagerView {
    /// Codes identify compiled forms: every script's code has been handed
    /// out already, and no two scripts share one.
    pub open spec fn wf(self) -> bool {
        &&& forall|i: int| 0 <= i < self.entries.len() ==> #[trigger] self.entries[i].code < self.next_code
        &&& forall|i: int, j: int|
            0 <= i < self.entries.len() && 0 <= j < self.entries.len() && i != j
                ==> #[trigger] self.entries[i].code != #[trigger] self.entries[j].code
    }

    /// The registry with no script.
    pub open spec fn empty() -> ManagerView {
        ManagerView { entries: Seq::empty(), next_code: 0 }
    }

    /// Whether `h` names a loaded script.
    pub open spec fn has(self, h: usize) -> bool {
        h < self.entries.len()
    }

    /// The registry after loading the script at `path` compiled to `bytecode`.
    pub open spec fn after_load(self, path: Seq<char>, bytecode: Seq<u8>) -> ManagerView {
        ManagerView {
            entries: self.entries.push(EntryView { path, bytecode, code: self.next_code }),
            next_code: (self.next_code + 1) as u64,
        }
    }

    /// The registry after script `h` received the compiled form `bytecode`;
    /// an index that names no script changes nothing.
    pub open spec fn after_update(self, h: usize, bytecode: Seq<u8>) -> ManagerView {
        if self.has(h) {
            ManagerView {
                entries: self.entries.update(
                    h as int,
                    EntryView { path: self.entries[h as int].path, bytecode, code: self.next_code },
                ),
                next_code: (self.next_code + 1) as u64,
            }
        } else {
            self
        }
    }

    /// The reload event that the update of script `h` gives rise to, if `h`
    /// names a script.
    pub open spec fn update_event(self, h: usize, bytecode: Seq<u8>) -> Option<ReloadView> {
        if self.has(h) {
            Some(
                ReloadView {
                    handle: h,
                    old_code: self.entries[h as int].code,
                    new_code: self.next_code,
                    bytecode,
                },
            )
        } else {
            None
        }
    }

    /// The registry after the updates `ups`, taken in order.
    pub open spec fn after_updates(self, ups: Seq<(usize, Seq<u8>)>) -> ManagerView
        decreases ups.len(),
    {
        if ups.len() == 0 {
            self
        } else {
            self.after_updates(ups.drop_last()).after_update(ups.last().0, ups.last().1)
        }
    }

    /// The registry after loading the scripts `scripts`, in order.
    pub open spec fn after_loads(self, scripts: Seq<(Seq<char>, Seq<u8>)>) -> ManagerView
        decreases scripts.len(),
    {
        if scripts.len() == 0 {
            self
        } else {
            self.after_loads(scripts.drop_last()).after_load(scripts.last().0, scripts.last().1)
        }
    }

    /// The reload events that the updates `ups` give rise to, in order.
    pub open spec fn update_events(self, ups: Seq<(usize, Seq<u8>)>) -> Seq<ReloadView>
        decreases ups.len(),
    {
        if ups.len() == 0 {
            Seq::empty()
        } else {
            let before = self.after_updates(ups.drop_last());
            let prev = self.update_events(ups.drop_last());
            match before.update_event(ups.last().0, ups.last().1) {
                Some(ev) => prev.push(ev),
                None => prev,
            }
        }
    }

    /// The instance that attaching script `h` gives: it runs the script's
    /// current compiled form.
    pub open spec fn attached(self, h: BehaviorHandle) -> InstanceCode {
        InstanceCode { handle: h, code: self.entries[h.spec_index() as int].code }
    }

    /// Whether `code` was handed out already and is not the current code of
    /// any script, so that no reload event can name it.
    pub open spec fn detached_code(self, code: u64) -> bool {
        &&& code < self.next_code
        &&& forall|i: int| 0 <= i < self.entries.len() ==> #[trigger] self.entries[i].code != code
    }
}


impl ManagerView {
    proof fn lemma_load_keeps_wf(self, path: Seq<char>, bytecode: Seq<u8>)
        requires
            self.wf(),
            self.next_code < u64::MAX,
        ensures
            self.after_load(path, bytecode).wf(),
    {
        let m = self.after_load(path, bytecode);
        assert forall|i: int| 0 <= i < m.entries.len() implies #[trigger] m.entries[i].code
            < m.next_code by {
            if i < self.entries.len() {
                assert(m.entries[i] == self.entries[i]);
            }
        }
        assert forall|i: int, j: int|
            0 <= i < m.entries.len() && 0 <= j < m.entries.len() && i != j implies #[trigger] m.entries[i].code
            != #[trigger] m.entries[j].code by {
            if i < self.entries.len() {
                assert(m.entries[i] == self.entries[i]);
            }
            if j < self.entries.len() {
                assert(m.entries[j] == self.entries[j]);
            }
        }
    }

    proof fn lemma_update_keeps_wf(self, h: usize, bytecode: Seq<u8>)
        requires
            self.wf(),
            self.next_code < u64::MAX,
        ensures
            self.after_update(h, bytecode).wf(),
            self.after_update(h, bytecode).entries.len() == self.entries.len(),
            self.next_code <= self.after_update(h, bytecode).next_code <= self.next_code + 1,
    {
        let m = self.after_update(h, bytecode);
        if self.has(h) {
            assert forall|i: int| 0 <= i < m.entries.len() implies #[trigger] m.entries[i].code
                < m.next_code by {
                if i != h {
                    assert(m.entries[i] == self.entries[i]);
                }
            }
            assert forall|i: int, j: int|
                0 <= i < m.entries.len() && 0 <= j < m.entries.len() && i != j implies #[trigger] m.entries[i].code
                != #[trigger] m.entries[j].code by {
                if i != h {
                    assert(m.entries[i] == self.entries[i]);
                }
                if j != h {
                    assert(m.entries[j] == self.entries[j]);
                }
            }
        }
    }

    proof fn lemma_updates_keep_wf(self, ups: Seq<(usize, Seq<u8>)>)
        requires
            self.wf(),
            self.next_code + ups.len() <= u64::MAX,
        ensures
            self.after_updates(ups).wf(),
            self.after_updates(ups).entries.len() == self.entries.len(),
            self.next_code <= self.after_updates(ups).next_code <= self.next_code + ups.len(),
        decreases ups.len(),
    {
        if ups.len() > 0 {
            self.lemma_updates_keep_wf(ups.drop_last());
            self.after_updates(ups.drop_last()).lemma_update_keeps_wf(ups.last().0, ups.last().1);
        }
    }
}

proof fn lemma_reloads_push(inst: InstanceCode, evs: Seq<ReloadView>, ev: ReloadView)
    ensures
        instance_after_reloads(inst, evs.push(ev)) == (if reload_matches(
            instance_after_reloads(inst, evs).0,
            ev,
        ) {
            (
                InstanceCode { handle: instance_after_reloads(inst, evs).0.handle, code: ev.new_code },
                Some(evs.len() as int),
            )
        } else {
            instance_after_reloads(inst, evs)
        }),
{
    assert(evs.push(ev).drop_last() =~= evs);
}

/// Hot reload reaches attached instances: an instance attached from script
/// `h`, after the reload events of any sequence of updates have been applied
/// to it in order, runs exactly the compiled form that attaching `h` after
/// those updates would give.
pub proof fn lemma_attached_instance_follows_reloads(
    m: ManagerView,
    h: BehaviorHandle,
    ups: Seq<(usize, Seq<u8>)>,
)
    requires
        m.wf(),
        m.has(h.spec_index()),
        m.next_code + ups.len() <= u64::MAX,
    ensures
        instance_after_reloads(m.attached(h), m.update_events(ups)).0 == m.after_updates(
            ups,
        ).attached(h),
    decreases ups.len(),
{
    if ups.len() > 0 {
        let prefix = ups.drop_last();
        lemma_attached_instance_follows_reloads(m, h, prefix);
        m.lemma_updates_keep_wf(prefix);
        let before = m.after_updates(prefix);
        let evs = m.update_events(prefix);
        match before.update_event(ups.last().0, ups.last().1) {
            Some(ev) => {
                lemma_reloads_push(m.attached(h), evs, ev);
            },
            None => {},
        }
    }
}

/// An instance whose code no script currently has (an instance that was
/// detached with its own copy of the code) is moved by no reload event,
/// whatever updates follow, and its code stays one that no script has.
pub proof fn lemma_detached_instance_keeps_code(
    m: ManagerView,
    inst: InstanceCode,
    ups: Seq<(usize, Seq<u8>)>,
)
    requires
        m.wf(),
        m.detached_code(inst.code),
        m.next_code + ups.len() <= u64::MAX,
    ensures
        instance_after_reloads(inst, m.update_events(ups)) == (inst, None::<int>),
        m.after_updates(ups).detached_code(inst.code),
    decreases ups.len(),
{
    if ups.len() > 0 {
        let prefix = ups.drop_last();
        lemma_detached_instance_keeps_code(m, inst, prefix);
        m.lemma_updates_keep_wf(prefix);
        let before = m.after_updates(prefix);
        let evs = m.update_events(prefix);
        let after = before.after_update(ups.last().0, ups.last().1);
        match before.update_event(ups.last().0, ups.last().1) {
            Some(ev) => {
                lemma_reloads_push(inst, evs, ev);
            },
            None => {},
        }
        assert forall|i: int| 0 <= i < after.entries.len() implies #[trigger] after.entries[i].code
            != inst.code by {
            if before.has(ups.last().0) && i != ups.last().0 {
                assert(after.entries[i] == before.entries[i]);
            }
        }
    }
}

/// Loading another script keeps a detached instance's code one that no
/// script has.
pub proof fn lemma_load_keeps_detached(m: ManagerView, code: u64, path: Seq<char>, bytecode: Seq<u8>)
    requires
        m.detached_code(code),
        m.next_code < u64::MAX,
    ensures
        m.after_load(path, bytecode).detached_code(code),
{
    let after = m.after_load(path, bytecode);
    assert forall|i: int| 0 <= i < after.entries.len() implies #[trigger] after.entries[i].code
        != code by {
        if i < m.entries.len() {
            assert(after.entries[i] == m.entries[i]);
        }
    }
}

/// Loads, in order, of the scripts `scripts` (a path and a compiled form
/// each): every load gets the next handle, so the handles are pairwise
/// distinct, each entry holds what its own load was given, the entries that
/// were there before are left as they were, and every compiled form has its
/// own code.
pub proof fn lemma_loads_give_own_handles(m: ManagerView, scripts: Seq<(Seq<char>, Seq<u8>)>)
    requires
        m.wf(),
        m.next_code + scripts.len() <= u64::MAX,
    ensures
        m.after_loads(scripts).wf(),
        m.after_loads(scripts).next_code == m.next_code + scripts.len(),
        m.after_loads(scripts).entries.len() == m.entries.len() + scripts.len(),
        forall|i: int| 0 <= i < m.entries.len() ==> #[trigger] m.after_loads(scripts).entries[i] == m.entries[i],
        forall|i: int|
            0 <= i < scripts.len() ==> (#[trigger] m.after_loads(scripts).entries[m.entries.len() + i]).path
                == scripts[i].0 && m.after_loads(scripts).entries[m.entries.len() + i].bytecode
                == scripts[i].1,
    decreases scripts.len(),
{
    if scripts.len() > 0 {
        let prefix = scripts.drop_last();
        lemma_loads_give_own_handles(m, prefix);
        let before = m.after_loads(prefix);
        before.lemma_load_keeps_wf(scripts.last().0, scripts.last().1);
        let after = m.after_loads(scripts);
        assert forall|i: int| 0 <= i < scripts.len() implies (#[trigger] after.entries[m.entries.len() + i]).path
            == scripts[i].0 && after.entries[m.entries.len() + i].bytecode == scripts[i].1 by {
            if i < prefix.len() {
                assert(prefix[i] == scripts[i]);
                assert(after.entries[m.entries.len() + i] == before.entries[m.entries.len() + i]);
            }
        }
        assert forall|i: int| 0 <= i < m.entries.len() implies #[trigger] after.entries[i] == m.entries[i] by {
            assert(after.entries[i] == before.entries[i]);
        }
    }
}

/// Updating one script leaves the entry of every other script as it was.
pub proof fn lemma_update_touches_only_its_script(m: ManagerView, h: usize, bytecode: Seq<u8>)
    ensures
        m.after_update(h, bytecode).entries.len() == m.entries.len(),
        forall|j: int|
            0 <= j < m.entries.len() && j != h ==> #[trigger] m.after_update(h, bytecode).entries[j]
                == m.entries[j],
{
}

/// A compiled change of a loaded script reaches it: processing the update
/// for script `h` with the compiled form `bytecode` (what `script_update`
/// gives for a changed text that compiles) installs that form for `h` and
/// is reported by exactly one reload event, for `h`, carrying those bytes.
pub proof fn lemma_compiled_update_installs(m: ManagerView, h: usize, bytecode: Seq<u8>)
    requires
        m.has(h),
    ensures
        m.after_updates(seq![(h, bytecode)]).entries[h as int].bytecode == bytecode,
        m.update_events(seq![(h, bytecode)]).len() == 1,
        m.update_events(seq![(h, bytecode)])[0].handle == h,
        m.update_events(seq![(h, bytecode)])[0].bytecode == bytecode,
{
    let ups = seq![(h, bytecode)];
    assert(ups.drop_last() =~= Seq::<(usize, Seq<u8>)>::empty());
    assert(ups.last() == (h, bytecode));
    assert(m.after_updates(ups.drop_last()) == m);
    assert(m.update_events(ups.drop_last()) =~= Seq::<ReloadView>::empty());
}

/// An attached instance runs its script's current compiled form: it carries
/// the script's handle and the script's current code, so the next update of
/// that script gives a reload event whose old code is the instance's code,
/// and the instance moves with it.
pub proof fn lemma_attached_runs_current_code(m: ManagerView, h: BehaviorHandle, bytecode: Seq<u8>)
    requires
        m.has(h.spec_index()),
    ensures
        m.attached(h).handle == h,
        m.attached(h).code == m.entries[h.spec_index() as int].code,
        m.update_event(h.spec_index(), bytecode) matches Some(ev) && ev.old_code == m.attached(
            h,
        ).code && reload_matches(m.attached(h), ev),
{
}

/// Reloading one script never moves an instance of another script.
pub proof fn lemma_other_scripts_leave_instance(inst: InstanceCode, evs: Seq<ReloadView>)
    requires
        forall|i: int| 0 <= i < evs.len() ==> #[trigger] evs[i].handle != inst.handle.spec_index(),
    ensures
        instance_after_reloads(inst, evs) == (inst, None::<int>),
    decreases evs.len(),
{
    if evs.len() > 0 {
        let prefix = evs.drop_last();
        assert forall|i: int| 0 <= i < prefix.len() implies #[trigger] prefix[i].handle
            != inst.handle.spec_index() by {
            assert(prefix[i] == evs[i]);
        }
        lemma_other_scripts_leave_instance(inst, prefix);
        assert(evs[evs.len() - 1].handle != inst.handle.spec_index());
    }
}

impl BehaviorManager {
    /// A registry with no script.
    pub fn new() -> (m: Self)
        ensures
            m@ == ManagerView::empty(),
            m@.wf(),
    {
        let m = BehaviorManager { entries: Vec::new(), next_code: 0 };
        assert(m@.entries =~= Seq::<EntryView>::empty());
        m
    }

    /// Number of loaded scripts.
    pub fn len(&self) -> (n: usize)
        ensures
            n == self@.entries.len(),
    {
        self.entries.len()
    }

    /// How many more compiled forms the registry can give an identity to.
    pub fn codes_left(&self) -> (n: u64)
        ensures
            n == u64::MAX - self@.next_code,
    {
        u64::MAX - self.next_code
    }

    /// Whether `handle` names a loaded script.
    pub fn contains(&self, handle: BehaviorHandle) -> (b: bool)
        ensures
            b == self@.has(handle.spec_index()),
    {
        handle.0 < self.entries.len()
    }

    /// Registers the script read from `path`, compiled to `bytecode`. The
    /// handle is the number of scripts loaded before it.
    pub fn load_compiled(&mut self, path: String, bytecode: Vec<u8>) -> (h: BehaviorHandle)
        requires
            old(self)@.next_code < u64::MAX,
        ensures
            h.spec_index() == old(self)@.entries.len(),
            final(self)@ == old(self)@.after_load(path@, bytecode@),
            final(self)@.wf(),
    {
        proof {
            use_type_invariant(&*self);
            self@.lemma_load_keeps_wf(path@, bytecode@);
        }
        let idx = self.entries.len();
        let code = self.next_code;
        self.next_code = code + 1;
        let mut entries: Vec<BehaviorEntry> = Vec::new();
        std::mem::swap(&mut entries, &mut self.entries);
        entries.push(BehaviorEntry { path, bytecode, code });
        assert(entries_view(entries@) =~= old(self)@.after_load(path@, bytecode@).entries);
        self.entries = entries;
        assert(self@.entries =~= old(self)@.after_load(path@, bytecode@).entries);
        BehaviorHandle(idx)
    }

    /// The path to read again when `handle` is reloaded, if it names a
    /// loaded script.
    pub fn path(&self, handle: BehaviorHandle) -> (p: Option<&String>)
        ensures
            p is Some <==> self@.has(handle.spec_index()),
            p matches Some(path) ==> path@ == self@.entries[handle.spec_index() as int].path,
    {
        if handle.0 < self.entries.len() {
            Some(&self.entries[handle.0].path)
        } else {
            None
        }
    }

    /// Compiles the script text `source` read from `path` and, if the
    /// compiler accepts it, registers the script with its compiled form and
    /// returns its handle, the number of scripts loaded before it. When the
    /// compiler rejects the text, nothing changes.
    pub fn load(&mut self, path: String, source: &str) -> (h: Option<BehaviorHandle>)
        requires
            old(self)@.next_code < u64::MAX,
        ensures
            final(self)@.wf(),
            match h {
                Some(handle) => {
                    &&& handle.spec_index() == old(self)@.entries.len()
                    &&& final(self)@.entries.len() == old(self)@.entries.len() + 1
                    &&& final(self)@ == old(self)@.after_load(
                        path@,
                        final(self)@.entries.last().bytecode,
                    )
                    &&& compiled_from(source@, final(self)@.entries.last().bytecode)
                    &&& is_compiled_form(final(self)@.entries.last().bytecode)
                },
                None => final(self)@ == old(self)@ && rejected(source@),
            },
    {
        proof {
            use_type_invariant(&*self);
        }
        match compile_source(source) {
            Some(bytecode) => {
                let ghost b = bytecode@;
                let handle = self.load_compiled(path, bytecode);
                assert(self@.entries.last().bytecode == b);
                Some(handle)
            },
            None => None,
        }
    }

    /// The update to send when script `handle` is reloaded from the text
    /// `source`: the script's index and the compiled text, if `handle` names
    /// a loaded script and the compiler accepts the text.
    pub fn reload(&self, handle: BehaviorHandle, source: &str) -> (u: Option<(usize, Vec<u8>)>)
        ensures
            !self@.has(handle.spec_index()) ==> u is None,
            u matches Some(upd) ==> upd.0 == handle.spec_index() && compiled_from(source@, upd.1@)
                && is_compiled_form(upd.1@),
            self@.has(handle.spec_index()) && u is None ==> rejected(source@),
    {
        if handle.0 < self.entries.len() {
            script_update(handle.0, source)
        } else {
            None
        }
    }

    /// The current compiled form of script `handle`.
    pub fn bytecode(&self, handle: BehaviorHandle) -> (b: &Vec<u8>)
        requires
            self@.has(handle.spec_index()),
        ensures
            b@ == self@.entries[handle.spec_index() as int].bytecode,
    {
        &self.entries[handle.0].bytecode
    }

    /// Gives script `id` the compiled form `bytecode` under a fresh code and
    /// reports the change; an index that names no script changes nothing.
    fn replace_bytecode(&mut self, id: usize, bytecode: Vec<u8>) -> (ev: Option<
        BehaviorReloadEvent,
    >)
        requires
            old(self)@.next_code < u64::MAX,
        ensures
            final(self)@ == old(self)@.after_update(id, bytecode@),
            match ev {
                Some(e) => old(self)@.update_event(id, bytecode@) == Some(e@),
                None => old(self)@.update_event(id, bytecode@) is None,
            },
    {
        proof {
            use_type_invariant(&*self);
            self@.lemma_update_keeps_wf(id, bytecode@);
        }
        if id < self.entries.len() {
            let code = self.next_code;
            let old_code = self.entries[id].code;
            let path = self.entries[id].path.clone();
            let event_bytes = bytecode.clone();
            assert(event_bytes@ =~= bytecode@);
            self.next_code = code + 1;
            let mut entries: Vec<BehaviorEntry> = Vec::new();
            std::mem::swap(&mut entries, &mut self.entries);
            entries.set(id, BehaviorEntry { path, bytecode, code });
            assert(entries_view(entries@) =~= old(self)@.after_update(id, bytecode@).entries);
            self.entries = entries;
            assert(self@.entries =~= old(self)@.after_update(id, bytecode@).entries);
            Some(
                BehaviorReloadEvent {
                    handle: BehaviorHandle(id),
                    old_code,
                    new_code: code,
                    bytecode: event_bytes,
                },
            )
        } else {
            None
        }
    }

    /// Applies, in order, the compiled forms that arrived for scripts since
    /// the last frame, and returns one reload event per update that named a
    /// loaded script, in the same order.
    pub fn process_fs_events(&mut self, updates: Vec<(usize, Vec<u8>)>) -> (evs: Vec<
        BehaviorReloadEvent,
    >)
        requires
            old(self)@.next_code + updates.len() <= u64::MAX,
        ensures
            final(self)@ == old(self)@.after_updates(updates_view(updates@)),
            events_view(evs@) == old(self)@.update_events(updates_view(updates@)),
            final(self)@.wf(),
    {
        let ghost all = updates_view(updates@);
        proof {
            use_type_invariant(&*self);
        }
        let ghost start = self@;
        let ghost mut k: int = 0;
        let mut rest = updates;
        let mut evs: Vec<BehaviorReloadEvent> = Vec::new();
        proof {
            assert(all.take(0) =~= Seq::<(usize, Seq<u8>)>::empty());
            assert(updates_view(rest@) =~= all.skip(0));
            assert(events_view(evs@) =~= Seq::<ReloadView>::empty());
        }
        while rest.len() > 0
            invariant
                0 <= k <= all.len(),
                rest@.len() + k == all.len(),
                updates_view(rest@) == all.skip(k),
                start.wf(),
                start.next_code + all.len() <= u64::MAX,
                self@ == start.after_updates(all.take(k)),
                events_view(evs@) == start.update_events(all.take(k)),
            decreases rest.len(),
        {
            proof {
                start.lemma_updates_keep_wf(all.take(k));
            }
            let ghost before_rest = rest@;
            let (id, bytes) = rest.remove(0);
            proof {
                assert(updates_view(before_rest)[0] == all[k]);
                assert forall|j: int| 0 <= j < rest@.len() implies updates_view(rest@)[j]
                    == all.skip(k + 1)[j] by {
                    assert(rest@[j] == before_rest[j + 1]);
                    assert(updates_view(before_rest)[j + 1] == all.skip(k)[j + 1]);
                }
                assert(updates_view(rest@) =~= all.skip(k + 1));
                assert(all.take(k + 1).drop_last() =~= all.take(k));
                assert(all.take(k + 1).last() == all[k]);
            }
            let ghost evs_before = evs@;
            let ev = self.replace_bytecode(id, bytes);
            match ev {
                Some(e) => {
                    evs.push(e);
                    proof {
                        assert(events_view(evs@) =~= events_view(evs_before).push(e@));
                    }
                },
                None => {},
            }
            proof {
                k = k + 1;
            }
        }
        proof {
            assert(all.take(k) =~= all);
            start.lemma_updates_keep_wf(all);
        }
        evs
    }

    /// The instance that attaching script `handle` gives: it runs the
    /// script's current compiled form.
    pub fn attach_instance(&self, handle: BehaviorHandle) -> (inst: InstanceCode)
        requires
            self@.has(handle.spec_index()),
        ensures
            inst == self@.attached(handle),
            inst.handle == handle,
            inst.code == self@.entries[handle.spec_index() as int].code,
    {
        InstanceCode { handle, code: self.entries[handle.0].code }
    }

    /// Gives `inst` its own copy of its code under a fresh identity, so that
    /// later reloads of its script leave it alone.
    pub fn detach_and_clone(&mut self, inst: &mut InstanceCode)
        requires
            old(self)@.next_code < u64::MAX,
        ensures
            final(inst).handle == old(inst).handle,
            final(inst).code == old(self)@.next_code,
            final(self)@ == (ManagerView {
                entries: old(self)@.entries,
                next_code: (old(self)@.next_code + 1) as u64,
            }),
            final(self)@.wf(),
            final(self)@.detached_code(final(inst).code),
    {
        proof {
            use_type_invariant(&*self);
        }
        let code = self.next_code;
        self.next_code = code + 1;
        inst.code = code;
    }
}

impl InstanceCode {
    /// Applies the reload events of a frame, in order: every event that
    /// replaces the compiled form the instance runs moves it to the new one.
    /// Returns the position of the last event that moved it, whose bytes the
    /// instance is to be started again from.
    pub fn apply_reload(&mut self, events: &Vec<BehaviorReloadEvent>) -> (last: Option<usize>)
        ensures
            (*final(self), position_view(last)) == instance_after_reloads(
                *old(self),
                events_view(events@),
            ),
    {
        let ghost evs = events_view(events@);
        let mut last: Option<usize> = None;
        let mut i: usize = 0;
        assert(evs.take(0) =~= Seq::<ReloadView>::empty());
        while i < events.len()
            invariant
                i <= events.len(),
                evs == events_view(events@),
                (*self, position_view(last)) == instance_after_reloads(
                    *old(self),
                    evs.take(i as int),
                ),
            decreases events.len() - i,
        {
            proof {
                assert(evs.take(i + 1) =~= evs.take(i as int).push(evs[i as int]));
                lemma_reloads_push(*old(self), evs.take(i as int), evs[i as int]);
            }
            let ev = &events[i];
            if ev.handle.0 == self.handle.0 && ev.old_code == self.code {
                self.code = ev.new_code;
                last = Some(i);
            }
            i += 1;
        }
        assert(evs.take(events.len() as int) =~= evs);
        last
    }
}

} // verus!
