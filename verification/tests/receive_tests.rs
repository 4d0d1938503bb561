use sacn::error::SacnError;
use sacn::packet::{
    AcnRootLayerProtocol, DataPacketDmpLayer, DataPacketFramingLayer, E131RootLayer, E131RootLayerData,
    SynchronizationPacketFramingLayer, UniverseDiscoveryPacketFramingLayer, UniverseDiscoveryPacketUniverseDiscoveryLayer,
    E131_DISCOVERY_UNIVERSE,
};
use sacn::receive::{
    htp_dmx_merge, receive_gives_up_at_once, remaining_timeout, DMXData, DiscoveredSacnSource, SacnReceiverInternal,
    UniversePage,
};

fn discovery_framing(name: &str, page: u8, last_page: u8, universes: Vec<u16>) -> UniverseDiscoveryPacketFramingLayer {
    UniverseDiscoveryPacketFramingLayer {
        source_name: name.into(),
        data: UniverseDiscoveryPacketUniverseDiscoveryLayer { page, last_page, universes },
    }
}

fn data_framing(universe: u16, sync: u16, values: Vec<u8>) -> DataPacketFramingLayer {
    DataPacketFramingLayer {
        source_name: "Source".into(),
        priority: 100,
        synchronization_address: sync,
        sequence_number: 0,
        preview_data: false,
        stream_terminated: false,
        force_synchronization: false,
        universe,
        data: DataPacketDmpLayer { property_values: values },
    }
}

#[test]
fn test_handle_single_page_discovery_packet() {
    let mut internal = SacnReceiverInternal::new();

    let name = "Test Src 1";
    let page: u8 = 0;
    let last_page: u8 = 0;
    let universes: Vec<u16> = vec![0, 1, 2, 3, 4, 5];

    let discovery_pkt = discovery_framing(name, page, last_page, universes.clone());

    let res: Option<Vec<DMXData>> = internal.handle_universe_discovery_packet(discovery_pkt, 0).unwrap();

    assert!(res.is_none());

    let discovered = internal.discovered_sources();
    assert_eq!(discovered.len(), 1);
    assert_eq!(discovered[0].name, name);
    assert_eq!(discovered[0].last_page, last_page);
    assert_eq!(discovered[0].pages.len(), 1);
    assert_eq!(discovered[0].pages[0].page, page);
    assert_eq!(discovered[0].pages[0].universes, universes);
}

#[test]
fn test_store_retrieve_waiting_data() {
    let mut internal = SacnReceiverInternal::new();

    let sync_uni: u16 = 1;
    let universe: u16 = 0;
    let vals: Vec<u8> = vec![0, 1, 2, 3, 4, 5, 6, 7, 8, 9];

    internal.store_waiting_data(DMXData { universe, values: vals.clone(), sync_uni }).unwrap();

    let res: Vec<DMXData> = internal.rtrv_waiting_data(sync_uni).unwrap();

    assert_eq!(res.len(), 1);
    assert_eq!(res[0].universe, universe);
    assert_eq!(res[0].sync_uni, sync_uni);
    assert_eq!(res[0].values, vals);
}

#[test]
fn test_store_2_retrieve_1_waiting_data() {
    let mut internal = SacnReceiverInternal::new();

    let sync_uni: u16 = 1;
    let universe: u16 = 0;
    let vals: Vec<u8> = vec![0, 1, 2, 3, 4, 5, 6, 7, 8, 9];

    internal.store_waiting_data(DMXData { universe, values: vals.clone(), sync_uni }).unwrap();
    internal.store_waiting_data(DMXData { universe: universe + 1, values: vals.clone(), sync_uni: sync_uni + 1 }).unwrap();

    let res: Vec<DMXData> = internal.rtrv_waiting_data(sync_uni).unwrap();

    assert_eq!(res.len(), 1);
    assert_eq!(res[0].universe, universe);
    assert_eq!(res[0].sync_uni, sync_uni);
    assert_eq!(res[0].values, vals);
}

#[test]
fn test_store_2_retrieve_2_waiting_data() {
    let mut internal = SacnReceiverInternal::new();

    let sync_uni: u16 = 1;
    let universe: u16 = 0;
    let vals: Vec<u8> = vec![0, 1, 2, 3, 4, 5, 6, 7, 8, 9];
    let vals2: Vec<u8> = vec![0, 9, 7, 3, 2, 4, 5, 6, 5, 1, 2, 3];

    internal.store_waiting_data(DMXData { universe, values: vals.clone(), sync_uni }).unwrap();
    internal.store_waiting_data(DMXData { universe: universe + 1, values: vals2.clone(), sync_uni: sync_uni + 1 }).unwrap();

    let res: Vec<DMXData> = internal.rtrv_waiting_data(sync_uni).unwrap();

    assert_eq!(res.len(), 1);
    assert_eq!(res[0].universe, universe);
    assert_eq!(res[0].sync_uni, sync_uni);
    assert_eq!(res[0].values, vals);

    let res2: Vec<DMXData> = internal.rtrv_waiting_data(sync_uni + 1).unwrap();

    assert_eq!(res2.len(), 1);
    assert_eq!(res2[0].universe, universe + 1);
    assert_eq!(res2[0].sync_uni, sync_uni + 1);
    assert_eq!(res2[0].values, vals2);
}

#[test]
fn htp_merge_takes_highest_values_and_longer_tail() {
    let existing = DMXData { universe: 3, sync_uni: 7, values: vec![0, 10, 200, 5] };
    let new = DMXData { universe: 3, sync_uni: 7, values: vec![0, 20, 100, 5, 9, 1] };
    let merged = htp_dmx_merge(&existing, &new).unwrap();
    assert_eq!(merged, DMXData { universe: 3, sync_uni: 7, values: vec![0, 20, 200, 5, 9, 1] });
    let merged_other_way = htp_dmx_merge(&new, &existing).unwrap();
    assert_eq!(merged_other_way, merged);
    assert_eq!(htp_dmx_merge(&existing, &existing).unwrap(), existing);
}

#[test]
fn htp_merge_rejects_mismatched_data() {
    let a = DMXData { universe: 1, sync_uni: 2, values: vec![0, 1] };
    assert_eq!(htp_dmx_merge(&a, &DMXData { universe: 2, sync_uni: 2, values: vec![0, 1] }), Err(SacnError::InvalidInput));
    assert_eq!(htp_dmx_merge(&a, &DMXData { universe: 1, sync_uni: 3, values: vec![0, 1] }), Err(SacnError::InvalidInput));
    assert_eq!(htp_dmx_merge(&a, &DMXData { universe: 1, sync_uni: 2, values: vec![1, 1] }), Err(SacnError::InvalidInput));
    assert_eq!(htp_dmx_merge(&a, &DMXData { universe: 1, sync_uni: 2, values: vec![] }), Err(SacnError::InvalidInput));
}

#[test]
fn stored_data_is_merged_and_released_by_sync_packet() {
    let mut internal = SacnReceiverInternal::new();
    assert_eq!(internal.handle_data_packet(data_framing(1, 10, vec![0, 5, 6])).unwrap(), None);
    assert_eq!(internal.handle_data_packet(data_framing(1, 10, vec![0, 9, 1])).unwrap(), None);
    assert_eq!(internal.handle_data_packet(data_framing(2, 10, vec![0, 3])).unwrap(), None);
    assert_eq!(internal.handle_data_packet(data_framing(3, 11, vec![0, 4])).unwrap(), None);
    assert_eq!(internal.waiting_data().len(), 3);

    let released = internal
        .handle_sync_packet(SynchronizationPacketFramingLayer { sequence_number: 0, synchronization_address: 10 })
        .unwrap()
        .unwrap();
    assert_eq!(
        released,
        vec![
            DMXData { universe: 1, sync_uni: 10, values: vec![0, 9, 6] },
            DMXData { universe: 2, sync_uni: 10, values: vec![0, 3] },
        ]
    );
    assert_eq!(internal.waiting_data(), &vec![DMXData { universe: 3, sync_uni: 11, values: vec![0, 4] }]);

    let nothing = internal
        .handle_sync_packet(SynchronizationPacketFramingLayer { sequence_number: 1, synchronization_address: 10 })
        .unwrap();
    assert_eq!(nothing, None);
}

#[test]
fn unsynchronised_data_is_released_at_once_and_clears_waiting_data() {
    let mut internal = SacnReceiverInternal::new();
    internal.handle_data_packet(data_framing(1, 10, vec![0, 5])).unwrap();
    let out = internal.handle_data_packet(data_framing(4, 0, vec![0, 1, 2])).unwrap();
    assert_eq!(out, Some(vec![DMXData { universe: 4, sync_uni: 0, values: vec![0, 1, 2] }]));
    assert!(internal.waiting_data().is_empty());
}

#[test]
fn preview_data_is_ignored_unless_processed() {
    let mut internal = SacnReceiverInternal::new();
    let mut pkt = data_framing(1, 0, vec![0, 1]);
    pkt.preview_data = true;
    assert_eq!(internal.handle_data_packet(pkt.clone()).unwrap(), None);
    internal.set_process_preview_data(true);
    assert_eq!(
        internal.handle_data_packet(pkt).unwrap(),
        Some(vec![DMXData { universe: 1, sync_uni: 0, values: vec![0, 1] }])
    );
}

#[test]
fn multi_page_discovery_completes_after_last_page() {
    let mut internal = SacnReceiverInternal::new();
    internal.handle_universe_discovery_packet(discovery_framing("Src", 1, 1, vec![600, 601]), 5).unwrap();
    assert!(internal.discovered_sources().is_empty());
    assert_eq!(internal.partially_discovered_sources().len(), 1);
    internal.handle_universe_discovery_packet(discovery_framing("Src", 0, 1, vec![1, 2]), 6).unwrap();
    assert!(internal.partially_discovered_sources().is_empty());
    let srcs = internal.discovered_sources();
    assert_eq!(srcs.len(), 1);
    assert_eq!(srcs[0].pages.iter().map(|p| p.page).collect::<Vec<u8>>(), vec![0, 1]);
    assert_eq!(srcs[0].get_all_universes(), vec![1, 2, 600, 601]);
    assert_eq!(srcs[0].last_updated, 6);
}

#[test]
fn rediscovered_source_replaces_earlier_entry() {
    let mut internal = SacnReceiverInternal::new();
    internal.handle_universe_discovery_packet(discovery_framing("A", 0, 0, vec![1]), 0).unwrap();
    internal.handle_universe_discovery_packet(discovery_framing("B", 0, 0, vec![2]), 0).unwrap();
    internal.handle_universe_discovery_packet(discovery_framing("A", 0, 0, vec![3]), 0).unwrap();
    let names: Vec<String> = internal.discovered_sources().iter().map(|s| s.name.clone()).collect();
    assert_eq!(names, vec!["B".to_string(), "A".to_string()]);
    assert_eq!(internal.discovered_sources()[1].get_all_universes(), vec![3]);
}

#[test]
fn stream_termination_removes_universe_from_discovered_source() {
    let mut internal = SacnReceiverInternal::new();
    internal.handle_universe_discovery_packet(discovery_framing("Source", 0, 0, vec![1, 2, 3]), 0).unwrap();
    let mut pkt = data_framing(2, 0, vec![0]);
    pkt.stream_terminated = true;
    assert_eq!(internal.handle_data_packet(pkt).unwrap(), None);
    assert_eq!(internal.discovered_sources()[0].get_all_universes(), vec![1, 3]);
}

#[test]
fn discovered_sources_expire_after_timeout() {
    let mut internal = SacnReceiverInternal::new();
    internal.handle_universe_discovery_packet(discovery_framing("Old", 0, 0, vec![1]), 1000).unwrap();
    internal.handle_universe_discovery_packet(discovery_framing("New", 0, 0, vec![2]), 3000).unwrap();
    let srcs = internal.get_discovered_sources(3500);
    assert_eq!(srcs.len(), 1);
    assert_eq!(srcs[0].name, "New");
    assert_eq!(internal.get_discovered_sources(5500).len(), 0);
}

#[test]
fn listen_universes_keeps_sorted_unique_and_reports_new() {
    let mut internal = SacnReceiverInternal::new();
    assert_eq!(internal.universes(), &vec![E131_DISCOVERY_UNIVERSE]);
    let added = internal.listen_universes(&[5, 1, 5, 3, E131_DISCOVERY_UNIVERSE]).unwrap();
    assert_eq!(added, vec![5, 1, 3]);
    assert_eq!(internal.universes(), &vec![1, 3, 5, E131_DISCOVERY_UNIVERSE]);
    assert_eq!(internal.listen_universes(&[2, 0]), Err(SacnError::InvalidInput));
    assert_eq!(internal.universes(), &vec![1, 3, 5, E131_DISCOVERY_UNIVERSE]);
}

#[test]
fn has_all_pages_sorts_pages() {
    let mut src = DiscoveredSacnSource {
        name: "S".into(),
        last_page: 2,
        pages: vec![
            UniversePage { page: 2, universes: vec![5] },
            UniversePage { page: 0, universes: vec![1] },
            UniversePage { page: 1, universes: vec![3] },
        ],
        last_updated: 0,
    };
    assert!(src.has_all_pages());
    assert_eq!(src.pages.iter().map(|p| p.page).collect::<Vec<u8>>(), vec![0, 1, 2]);
    let mut dup = DiscoveredSacnSource {
        name: "D".into(),
        last_page: 1,
        pages: vec![UniversePage { page: 0, universes: vec![] }, UniversePage { page: 0, universes: vec![] }],
        last_updated: 0,
    };
    assert!(!dup.has_all_pages());
    let mut repeated = DiscoveredSacnSource {
        name: "R".into(),
        last_page: 1,
        pages: vec![
            UniversePage { page: 1, universes: vec![2] },
            UniversePage { page: 0, universes: vec![1] },
            UniversePage { page: 0, universes: vec![1] },
        ],
        last_updated: 0,
    };
    assert!(repeated.has_all_pages());
    assert_eq!(repeated.pages.iter().map(|p| p.page).collect::<Vec<u8>>(), vec![0, 0, 1]);
    let mut short = DiscoveredSacnSource {
        name: "T".into(),
        last_page: 3,
        pages: vec![UniversePage { page: 1, universes: vec![] }, UniversePage { page: 0, universes: vec![] }],
        last_updated: 0,
    };
    assert!(!short.has_all_pages());
    let mut last = DiscoveredSacnSource {
        name: "L".into(),
        last_page: 255,
        pages: (0..=255u8).rev().map(|p| UniversePage { page: p, universes: vec![] }).collect(),
        last_updated: 0,
    };
    assert!(last.has_all_pages());
}

#[test]
fn receiver_refuses_data_it_cannot_merge() {
    let mut internal = SacnReceiverInternal::new();
    internal.handle_data_packet(data_framing(1, 10, vec![0, 5])).unwrap();
    let clash = AcnRootLayerProtocol {
        pdu: E131RootLayer { cid: [0; 16], data: E131RootLayerData::DataPacket(data_framing(1, 10, vec![7, 5])) },
    };
    assert_eq!(internal.handle_packet(clash, 0), Err(SacnError::InvalidInput));
    assert_eq!(internal.waiting_data()[0].values, vec![0, 5]);
    assert_eq!(
        internal.store_waiting_data(DMXData { universe: 1, sync_uni: 10, values: vec![3] }),
        Err(SacnError::InvalidInput)
    );
    assert_eq!(internal.waiting_data().len(), 1);
    let fine = AcnRootLayerProtocol {
        pdu: E131RootLayer { cid: [0; 16], data: E131RootLayerData::DataPacket(data_framing(1, 10, vec![0, 6])) },
    };
    internal.handle_packet(fine, 0).unwrap();
    assert_eq!(internal.waiting_data()[0].values, vec![0, 6]);
}

#[test]
fn three_page_discovery_in_order() {
    let mut internal = SacnReceiverInternal::new();
    assert_eq!(internal.handle_universe_discovery_packet(discovery_framing("Three", 0, 2, vec![1, 2]), 0), Ok(None));
    assert_eq!(internal.handle_universe_discovery_packet(discovery_framing("Three", 1, 2, vec![3]), 1), Ok(None));
    assert!(internal.discovered_sources().is_empty());
    assert_eq!(internal.handle_universe_discovery_packet(discovery_framing("Three", 2, 2, vec![4, 5]), 2), Ok(None));
    assert!(internal.partially_discovered_sources().is_empty());
    assert_eq!(internal.discovered_sources().len(), 1);
    assert_eq!(internal.discovered_sources()[0].name, "Three");
    assert_eq!(internal.discovered_sources()[0].get_all_universes(), vec![1, 2, 3, 4, 5]);
}

#[test]
fn two_page_discovery_in_either_order() {
    let first: Vec<u16> = (2..=513).collect();
    let second: Vec<u16> = (514..=601).collect();
    let all: Vec<u16> = (2..=601).collect();
    for order in [[0u8, 1], [1, 0]].iter() {
        let mut internal = SacnReceiverInternal::new();
        for (t, page) in order.iter().enumerate() {
            let us = if *page == 0 { first.clone() } else { second.clone() };
            internal.handle_universe_discovery_packet(discovery_framing("Source 1", *page, 1, us), t as u64).unwrap();
        }
        let srcs = internal.get_discovered_sources(2);
        assert_eq!(srcs.len(), 1);
        assert_eq!(srcs[0].name, "Source 1");
        assert_eq!(srcs[0].get_all_universes(), all);
    }
}

#[test]
fn receive_timeouts() {
    assert!(receive_gives_up_at_once(Some(0)));
    assert!(!receive_gives_up_at_once(Some(1)));
    assert!(!receive_gives_up_at_once(None));
    assert_eq!(remaining_timeout(None, 500), Some(None));
    assert_eq!(remaining_timeout(Some(1000), 400), Some(Some(600)));
    assert_eq!(remaining_timeout(Some(1000), 1000), Some(Some(0)));
    assert_eq!(remaining_timeout(Some(1000), 1001), None);
}
