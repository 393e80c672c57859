use luau_behavior::behavior::{script_update, BehaviorManager, BehaviorReloadEvent, InstanceCode};

#[test]
fn load_hands_out_handles_in_order() {
    let mut m = BehaviorManager::new();
    assert_eq!(m.len(), 0);
    let a = m.load_compiled("a.lua".to_string(), vec![1, 2]);
    let b = m.load_compiled("b.lua".to_string(), vec![3]);
    assert_eq!(a.index(), 0);
    assert_eq!(b.index(), 1);
    assert_eq!(m.len(), 2);
    assert!(m.contains(a));
    assert_eq!(m.bytecode(a), &vec![1, 2]);
    assert_eq!(m.bytecode(b), &vec![3]);
    assert_eq!(m.path(b).map(|p| p.as_str()), Some("b.lua"));
    assert_eq!(m.codes_left(), u64::MAX - 2);
}

#[test]
fn reload_of_unknown_handle_gives_no_path() {
    let mut m = BehaviorManager::new();
    let h = m.load_compiled("x.lua".to_string(), vec![0]);
    let empty = BehaviorManager::new();
    assert!(!empty.contains(h));
    assert!(empty.path(h).is_none());
    assert!(m.path(h).is_some());
}

#[test]
fn updates_replace_bytecode_and_report_events() {
    let mut m = BehaviorManager::new();
    let h = m.load_compiled("s.lua".to_string(), vec![1]);
    let before = m.attach_instance(h);
    let evs = m.process_fs_events(vec![(0, vec![2]), (5, vec![9]), (0, vec![3])]);
    assert_eq!(evs.len(), 2);
    assert_eq!(evs[0].handle, h);
    assert_eq!(evs[0].old_code, before.code);
    assert_eq!(evs[0].bytecode, vec![2]);
    assert_eq!(evs[1].old_code, evs[0].new_code);
    assert_eq!(evs[1].bytecode, vec![3]);
    assert_ne!(evs[0].new_code, evs[0].old_code);
    assert_eq!(m.bytecode(h), &vec![3]);
    assert_eq!(m.attach_instance(h).code, evs[1].new_code);
}

#[test]
fn attached_instance_follows_reloads() {
    let mut m = BehaviorManager::new();
    let h = m.load_compiled("s.lua".to_string(), vec![1]);
    let mut inst = m.attach_instance(h);
    let evs = m.process_fs_events(vec![(0, vec![2]), (0, vec![3])]);
    assert_eq!(inst.apply_reload(&evs), Some(1));
    assert_eq!(inst, m.attach_instance(h));
    let again = m.process_fs_events(vec![]);
    assert_eq!(inst.apply_reload(&again), None);
}

#[test]
fn detached_instance_keeps_its_code() {
    let mut m = BehaviorManager::new();
    let h = m.load_compiled("s.lua".to_string(), vec![1]);
    let mut inst = m.attach_instance(h);
    let mut other = m.attach_instance(h);
    m.detach_and_clone(&mut inst);
    assert_eq!(inst.handle, h);
    assert_ne!(inst.code, other.code);
    let evs = m.process_fs_events(vec![(0, vec![10])]);
    let detached = inst;
    assert_eq!(inst.apply_reload(&evs), None);
    assert_eq!(inst, detached);
    assert_eq!(other.apply_reload(&evs), Some(0));
    assert_eq!(other, m.attach_instance(h));
    let fresh = m.attach_instance(h);
    assert_eq!(fresh, other);
}

#[test]
fn reload_of_another_script_leaves_instance() {
    let mut m = BehaviorManager::new();
    let a = m.load_compiled("a.lua".to_string(), vec![1]);
    let _b = m.load_compiled("b.lua".to_string(), vec![2]);
    let mut inst = m.attach_instance(a);
    let kept = inst;
    let evs = m.process_fs_events(vec![(1, vec![3])]);
    assert_eq!(evs.len(), 1);
    assert_eq!(inst.apply_reload(&evs), None);
    assert_eq!(inst, kept);
}

#[test]
fn event_with_other_old_code_is_ignored() {
    let mut m = BehaviorManager::new();
    let h = m.load_compiled("a.lua".to_string(), vec![1]);
    let mut inst = InstanceCode { handle: h, code: 77 };
    let ev = BehaviorReloadEvent { handle: h, old_code: 78, new_code: 79, bytecode: vec![] };
    assert_eq!(inst.apply_reload(&vec![ev]), None);
    assert_eq!(inst.code, 77);
    let ev = BehaviorReloadEvent { handle: h, old_code: 77, new_code: 80, bytecode: vec![] };
    assert_eq!(inst.apply_reload(&vec![ev]), Some(0));
    assert_eq!(inst.code, 80);
    let _ = m.process_fs_events(vec![]);
}

const COUNTER_SCRIPT: &str = "return { update=function(self,dt) self.x=(self.x or 0)+1 end }";

#[test]
fn load_compiles_the_script_text() {
    let mut m = BehaviorManager::new();
    let h = m.load("b.lua".to_string(), COUNTER_SCRIPT).unwrap();
    assert_eq!(h.index(), 0);
    let bytes = m.bytecode(h).clone();
    assert!(!bytes.is_empty());
    assert_ne!(bytes.as_slice(), COUNTER_SCRIPT.as_bytes());
    assert_ne!(bytes[0], 0);
    assert_eq!(m.path(h).map(|p| p.as_str()), Some("b.lua"));
}

#[test]
fn load_of_text_that_does_not_compile_changes_nothing() {
    let mut m = BehaviorManager::new();
    assert!(m.load("bad.lua".to_string(), "return {").is_none());
    assert_eq!(m.len(), 0);
    assert_eq!(m.codes_left(), u64::MAX);
}

#[test]
fn reload_compiles_for_known_scripts_only() {
    let mut m = BehaviorManager::new();
    let h = m.load("b.lua".to_string(), COUNTER_SCRIPT).unwrap();
    let (index, bytes) = m.reload(h, "return { update=function(self,dt) self.x=(self.x or 0)+2 end }").unwrap();
    assert_eq!(index, 0);
    assert_ne!(&bytes, m.bytecode(h));
    assert!(m.reload(h, "return {").is_none());
    let empty = BehaviorManager::new();
    assert!(empty.reload(h, COUNTER_SCRIPT).is_none());
}

#[test]
fn script_update_pairs_index_with_compiled_text() {
    let (index, bytes) = script_update(4, COUNTER_SCRIPT).unwrap();
    assert_eq!(index, 4);
    assert_ne!(bytes.as_slice(), COUNTER_SCRIPT.as_bytes());
    assert!(script_update(4, "return {").is_none());
}

#[test]
fn same_text_compiles_to_same_bytes() {
    let (_, a) = script_update(0, COUNTER_SCRIPT).unwrap();
    let mut m = BehaviorManager::new();
    let h = m.load("b.lua".to_string(), COUNTER_SCRIPT).unwrap();
    assert_eq!(&a, m.bytecode(h));
}

#[test]
fn reload_scenario_attach_reload_override() {
    let mut m = BehaviorManager::new();
    let h = m.load("b.lua".to_string(), COUNTER_SCRIPT).unwrap();
    let mut first = m.attach_instance(h);
    let update = m.reload(h, "return { update=function(self,dt) self.x=(self.x or 0)+2 end }").unwrap();
    let evs = m.process_fs_events(vec![update]);
    assert_eq!(first.apply_reload(&evs), Some(0));
    m.detach_and_clone(&mut first);
    let update = m.reload(h, "return { update=function(self,dt) self.x=(self.x or 0)+10 end }").unwrap();
    let evs = m.process_fs_events(vec![update.clone()]);
    let mut second = m.attach_instance(h);
    assert_eq!(first.apply_reload(&evs), None);
    assert_eq!(second.apply_reload(&evs), None);
    assert_eq!(m.bytecode(h), &update.1);
}
