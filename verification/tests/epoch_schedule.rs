use ledger_core::epoch_schedule::EpochSchedule;

#[test]
fn test_epoch_schedule() {
    // one week of slots at 8 ticks/slot, 10 ticks/sec is
    // (1 * 7 * 24 * 4500u64).next_power_of_two();

    // test values between 1 and 16, should cover a good mix
    for slots_per_epoch in 1..=16 {
        let epoch_schedule = EpochSchedule::new(slots_per_epoch, slots_per_epoch / 2, true);

        let mut last_stakers = 0;
        let mut last_epoch = 0;
        let mut last_slots_in_epoch = 1;
        for slot in 0..(2 * slots_per_epoch) {
            // verify that stakers_epoch is continuous over the warmup
            //   and into the first normal epoch

            let stakers = epoch_schedule.get_stakers_epoch(slot);
            if stakers != last_stakers {
                assert_eq!(stakers, last_stakers + 1);
                last_stakers = stakers;
            }

            let (epoch, offset) = epoch_schedule.get_epoch_and_slot_index(slot);

            //  verify that epoch increases continuously
            if epoch != last_epoch {
                assert_eq!(epoch, last_epoch + 1);
                last_epoch = epoch;

                // verify that slots in an epoch double continuously
                //   until they reach slots_per_epoch

                let slots_in_epoch = epoch_schedule.get_slots_in_epoch(epoch);
                if slots_in_epoch != last_slots_in_epoch {
                    if slots_in_epoch != slots_per_epoch {
                        assert_eq!(slots_in_epoch, last_slots_in_epoch * 2);
                    }
                }
                last_slots_in_epoch = slots_in_epoch;
            }
            // verify that the slot offset is less than slots_in_epoch
            assert!(offset < last_slots_in_epoch);
        }

        // assert that these changed  ;)
        assert!(last_stakers != 0); // t
        assert!(last_epoch != 0);
        // assert that we got to "normal" mode
        assert!(last_slots_in_epoch == slots_per_epoch);
    }
}
