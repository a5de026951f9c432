use std::collections::HashMap;

use static_alias_analyzer::stacked_borrows::{AccessError, Permission, Stack, StackItem, Tag};

fn item(id: u32, permission: Permission) -> StackItem {
    StackItem::new(Tag::Tagged(id), permission)
}

fn stack_of(items: &[StackItem]) -> Stack {
    let mut stack = Stack::new();
    for it in items {
        stack.new_ref(it.tag, it.permission);
    }
    stack
}

#[test]
fn new_stack_is_empty() {
    let stack = Stack::new();
    assert!(stack.items().is_empty());
    assert!(!stack.is_live(Tag::Tagged(0)));
}

#[test]
fn new_ref_pushes_on_top() {
    let stack = stack_of(&[item(1, Permission::Unique), item(2, Permission::SharedReadOnly)]);
    assert_eq!(
        stack.items(),
        &vec![item(1, Permission::Unique), item(2, Permission::SharedReadOnly)]
    );
}

#[test]
fn new_ref_of_present_entry_revalidates_instead_of_duplicating() {
    let mut stack = stack_of(&[
        item(1, Permission::Unique),
        item(2, Permission::Unique),
        item(3, Permission::SharedReadOnly),
    ]);
    stack.new_ref(Tag::Tagged(2), Permission::Unique);
    assert_eq!(stack.items(), &vec![item(1, Permission::Unique), item(2, Permission::Unique)]);
    let count = stack.items().iter().filter(|e| **e == item(2, Permission::Unique)).count();
    assert_eq!(count, 1);
}

#[test]
fn same_tag_with_other_permission_is_a_new_entry() {
    let mut stack = stack_of(&[item(1, Permission::Unique)]);
    stack.new_ref(Tag::Tagged(1), Permission::SharedReadOnly);
    assert_eq!(
        stack.items(),
        &vec![item(1, Permission::Unique), item(1, Permission::SharedReadOnly)]
    );
}

#[test]
fn use_value_discards_entries_above_and_leaves_tag_on_top() {
    let mut stack = stack_of(&[
        item(1, Permission::Unique),
        item(2, Permission::Unique),
        item(3, Permission::SharedReadOnly),
        item(4, Permission::SharedReadWrite),
    ]);
    assert_eq!(stack.use_value(Tag::Tagged(2)), Ok(()));
    assert_eq!(stack.items(), &vec![item(1, Permission::Unique), item(2, Permission::Unique)]);
    assert_eq!(stack.items().last().unwrap().tag, Tag::Tagged(2));
    assert!(!stack.is_live(Tag::Tagged(3)));
}

#[test]
fn use_value_without_tag_is_refused_and_empties_the_stack() {
    let mut stack = stack_of(&[item(1, Permission::Unique), item(2, Permission::Unique)]);
    assert_eq!(
        stack.use_value(Tag::Tagged(9)),
        Err(AccessError::NoWriteAccess(Tag::Tagged(9)))
    );
    assert!(stack.items().is_empty());
    assert_eq!(
        stack.use_value(Tag::Tagged(1)),
        Err(AccessError::NoWriteAccess(Tag::Tagged(1)))
    );
}

#[test]
fn read_value_discards_unique_entries_above_target_only() {
    let mut stack = stack_of(&[
        item(1, Permission::Unique),
        item(2, Permission::SharedReadOnly),
        item(3, Permission::Unique),
        item(4, Permission::SharedReadWrite),
        item(5, Permission::Unique),
        item(6, Permission::SharedReadOnly),
    ]);
    assert_eq!(stack.read_value(Tag::Tagged(2)), Ok(()));
    assert_eq!(
        stack.items(),
        &vec![
            item(1, Permission::Unique),
            item(2, Permission::SharedReadOnly),
            item(4, Permission::SharedReadWrite),
            item(6, Permission::SharedReadOnly),
        ]
    );
}

#[test]
fn read_value_keeps_every_shared_entry() {
    let mut stack = stack_of(&[
        item(1, Permission::SharedReadWrite),
        item(2, Permission::Unique),
        item(3, Permission::SharedReadOnly),
        item(4, Permission::Unique),
    ]);
    assert_eq!(stack.read_value(Tag::Tagged(1)), Ok(()));
    assert!(stack.items().contains(&item(1, Permission::SharedReadWrite)));
    assert!(stack.items().contains(&item(3, Permission::SharedReadOnly)));
    assert!(!stack.is_live(Tag::Tagged(2)));
    assert!(!stack.is_live(Tag::Tagged(4)));
}

#[test]
fn read_value_without_tag_is_refused_and_drops_all_unique_entries() {
    let mut stack = stack_of(&[
        item(1, Permission::Unique),
        item(2, Permission::SharedReadOnly),
        item(3, Permission::Unique),
    ]);
    assert_eq!(
        stack.read_value(Tag::Tagged(7)),
        Err(AccessError::NoReadAccess(Tag::Tagged(7)))
    );
    assert_eq!(stack.items(), &vec![item(2, Permission::SharedReadOnly)]);
}

#[test]
fn use_raw_is_granted_by_any_shared_read_write_entry() {
    let mut stack = stack_of(&[
        item(1, Permission::Unique),
        item(2, Permission::SharedReadWrite),
        item(3, Permission::Unique),
        item(4, Permission::SharedReadOnly),
    ]);
    assert_eq!(stack.use_raw(Tag::Tagged(8)), Ok(()));
    assert_eq!(
        stack.items(),
        &vec![item(1, Permission::Unique), item(2, Permission::SharedReadWrite)]
    );
}

#[test]
fn use_raw_without_shared_read_write_is_refused_and_changes_nothing() {
    let mut stack = stack_of(&[item(1, Permission::Unique), item(2, Permission::SharedReadOnly)]);
    assert_eq!(
        stack.use_raw(Tag::Tagged(1)),
        Err(AccessError::NoWriteAccess(Tag::Tagged(1)))
    );
    assert_eq!(
        stack.items(),
        &vec![item(1, Permission::Unique), item(2, Permission::SharedReadOnly)]
    );
}

#[test]
fn read_raw_checks_without_changing_the_stack() {
    let mut granted = stack_of(&[item(1, Permission::SharedReadWrite), item(2, Permission::Unique)]);
    assert_eq!(granted.read_raw(Tag::Tagged(5)), Ok(()));
    assert_eq!(granted.items().len(), 2);
    let mut refused = stack_of(&[item(1, Permission::Unique)]);
    assert_eq!(
        refused.read_raw(Tag::Tagged(5)),
        Err(AccessError::NoReadAccess(Tag::Tagged(5)))
    );
    assert_eq!(refused.items().len(), 1);
}

#[test]
fn is_live_finds_tags_anywhere() {
    let stack = stack_of(&[item(1, Permission::Unique), item(2, Permission::SharedReadOnly)]);
    assert!(stack.is_live(Tag::Tagged(1)));
    assert!(stack.is_live(Tag::Tagged(2)));
    assert!(!stack.is_live(Tag::Tagged(3)));
    assert!(!stack.is_live(Tag::Untagged));
}

#[test]
fn clean_empties_the_stack() {
    let mut stack = stack_of(&[item(1, Permission::Unique), item(2, Permission::Unique)]);
    stack.clean();
    assert!(stack.items().is_empty());
    assert!(!stack.is_live(Tag::Tagged(1)));
}

#[test]
fn tag_names_use_registered_names_else_the_tag_text() {
    let mut stack = Stack::new();
    let mut names = HashMap::new();
    names.insert(3u32, String::from("local"));
    stack.set_names(names);
    assert_eq!(stack.get_tag_name(Tag::Tagged(3)), "local");
    assert_eq!(stack.get_tag_name(Tag::Tagged(42)), "<42>");
    assert_eq!(stack.get_tag_name(Tag::Tagged(0)), "<0>");
    assert_eq!(stack.get_tag_name(Tag::Untagged), "<untagged>");
}

#[test]
fn stack_item_new_keeps_its_fields() {
    let it = StackItem::new(Tag::Untagged, Permission::SharedReadWrite);
    assert_eq!(it.tag, Tag::Untagged);
    assert_eq!(it.permission, Permission::SharedReadWrite);
}

#[test]
fn successful_write_always_leaves_its_tag_on_top() {
    let base = [
        item(1, Permission::Unique),
        item(2, Permission::SharedReadWrite),
        item(3, Permission::SharedReadOnly),
        item(4, Permission::Unique),
    ];
    for id in 0..6u32 {
        let mut stack = stack_of(&base);
        match stack.use_value(Tag::Tagged(id)) {
            Ok(()) => assert_eq!(stack.items().last().unwrap().tag, Tag::Tagged(id)),
            Err(e) => {
                assert_eq!(e, AccessError::NoWriteAccess(Tag::Tagged(id)));
                assert!(stack.items().is_empty());
            }
        }
    }
}
