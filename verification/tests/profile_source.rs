use sekai_profile_renderer::profile_source::{
    profile_page, profile_page_order, stable_order, CustomProfileCard, ObjectData, UserCustomProfileCard,
};

fn empty_card() -> CustomProfileCard {
    CustomProfileCard {
        texts: Vec::new(),
        shapes: Vec::new(),
        card_members: Vec::new(),
        stamps: Vec::new(),
        others: Vec::new(),
        bonds_honors: Vec::new(),
        honors: Vec::new(),
        collections: Vec::new(),
        generals: Vec::new(),
        general_backgrounds: Vec::new(),
        stand_members: Vec::new(),
        story_backgrounds: Vec::new(),
    }
}

#[test]
fn pages_follow_ascending_seq_not_response_order() {
    let pages = [6, 10, 5, 8, 5]
        .into_iter()
        .enumerate()
        .map(|(position, seq)| UserCustomProfileCard {
            custom_profile_card: empty_card(),
            custom_profile_card_id: position as i32,
            custom_profile_id: 1,
            seq,
        })
        .collect::<Vec<_>>();
    assert_eq!(
        profile_page_order(&pages, |page| page.seq),
        vec![2, 4, 0, 3, 1]
    );
    assert_eq!(
        profile_page(&pages, 0).map(|page| page.custom_profile_card_id),
        Some(2)
    );
    assert_eq!(
        profile_page(&pages, 4).map(|page| page.custom_profile_card_id),
        Some(1)
    );
    assert!(profile_page(&pages, 5).is_none());
}

#[test]
fn element_count_adds_every_kind() {
    let mut card = empty_card();
    assert_eq!(card.element_count(), 0);
    card.texts.push(ObjectData { layer: 1, visible: true });
    card.story_backgrounds.push(ObjectData { layer: 0, visible: false });
    card.honors.push(ObjectData { layer: 2, visible: true });
    assert_eq!(card.element_count(), 3);
}

#[test]
fn equal_seqs_keep_the_response_order() {
    assert_eq!(stable_order(&[3, 3, 3]), vec![0, 1, 2]);
    assert_eq!(stable_order(&[i32::MAX, i32::MIN, 0]), vec![1, 2, 0]);
    assert_eq!(stable_order(&[]), Vec::<usize>::new());
}
