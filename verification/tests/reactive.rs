use ui::reactive::{RenderContext, PopupRequest, is_dirty, next_reactive_id, take_dirty, DirtySet, IdSource, MutationQueue, Reactive, ReactiveId};

#[test]
fn ids_count_up_from_one() {
    let mut ids = IdSource::new();
    assert_eq!(next_reactive_id(&mut ids), ReactiveId(1));
    assert_eq!(next_reactive_id(&mut ids), ReactiveId(2));
}

#[test]
fn reactive_values_have_distinct_ids() {
    let mut ids = IdSource::new();
    let a = Reactive::new(1u32, &mut ids);
    let b = Reactive::new(2u32, &mut ids);
    assert_ne!(a.id(), b.id());
    assert_eq!(*a.get_untracked(), 1);
}

#[test]
fn set_marks_dirty_until_taken() {
    let mut ids = IdSource::new();
    let mut dirty = DirtySet::new();
    let mut r = Reactive::new(String::from("a"), &mut ids);
    assert!(!is_dirty(&dirty));
    r.set(String::from("b"), &mut dirty);
    assert_eq!(r.get_untracked(), "b");
    assert!(is_dirty(&dirty));
    r.set(String::from("c"), &mut dirty);
    assert!(take_dirty(&mut dirty));
    assert!(!is_dirty(&dirty));
    assert!(!take_dirty(&mut dirty));
}

#[test]
fn mutations_drain_in_order() {
    let mut q: MutationQueue<u8> = MutationQueue::new();
    assert!(q.is_empty());
    q.push(3);
    q.push(1);
    q.push(2);
    assert!(!q.is_empty());
    assert_eq!(q.drain(), vec![3, 1, 2]);
    assert!(q.is_empty());
    assert!(q.drain().is_empty());
}

#[test]
fn render_context_size_requests_read_back_once() {
    let mut cx: RenderContext<u8, &str> = RenderContext::new(800, 600);
    assert_eq!(cx.surface_size(), (800, 600));
    assert_eq!(cx.take_requested_size(), None);
    cx.set_surface_size(400, 300);
    assert_eq!(cx.surface_size(), (400, 300));
    assert_eq!(cx.take_requested_size(), Some((400, 300)));
    assert_eq!(cx.take_requested_size(), None);
}

#[test]
fn render_context_popups() {
    let mut cx: RenderContext<u8, &str> = RenderContext::new(10, 10);
    assert!(!cx.is_popup_open("menu"));
    cx.set_open_popups(vec!["menu".to_string(), "picker".to_string()]);
    assert!(cx.is_popup_open("menu"));
    assert!(cx.is_popup_open("picker"));
    assert!(!cx.is_popup_open("tip"));
    cx.open_popup("tip", 7);
    cx.close_popup("menu");
    let reqs = cx.take_popup_requests();
    assert_eq!(reqs.len(), 2);
    match &reqs[0] {
        PopupRequest::Open { key, config } => {
            assert_eq!(key, "tip");
            assert_eq!(*config, 7);
        }
        _ => panic!("expected an open request"),
    }
    match &reqs[1] {
        PopupRequest::Close { key } => assert_eq!(key, "menu"),
        _ => panic!("expected a close request"),
    }
    assert!(cx.take_popup_requests().is_empty());
    cx.render_popup("tip", "first");
    cx.render_popup("picker", "grid");
    cx.render_popup("tip", "second");
    let taken = cx.take_popup_elements();
    assert_eq!(taken.len(), 2);
    let elements: std::collections::HashMap<String, &str> = taken.into_iter().collect();
    assert_eq!(elements.len(), 2);
    assert_eq!(elements["tip"], "second");
    assert_eq!(elements["picker"], "grid");
    assert!(cx.take_popup_elements().is_empty());
}
