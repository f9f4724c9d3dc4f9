use patchbay::error::PatchbayError;
use patchbay::transfer::{
    buffer_capacity, capture, count_frames, create_ringbuf, playback, prefilled, select_channel,
    split, take_samples, wire, write_channel, SILENCE,
};

#[test]
fn capacity_is_twice_the_whole_frames_times_the_channels() {
    assert_eq!(buffer_capacity(48000, 2, 2), Some(384));
    assert_eq!(buffer_capacity(48000, 2, 1), Some(192));
    assert_eq!(buffer_capacity(44100, 3, 6), Some(2 * 132 * 6));
    assert_eq!(buffer_capacity(48000, 0, 2), Some(0));
    assert_eq!(buffer_capacity(48000, 2, 0), Some(0));
}

#[test]
fn capacity_rounds_the_frames_down() {
    assert_eq!(buffer_capacity(999, 1, 1), Some(0));
    assert_eq!(buffer_capacity(1000, 1, 1), Some(2));
    assert_eq!(buffer_capacity(1999, 1, 1), Some(2));
    assert_eq!(buffer_capacity(22050, 7, 3), Some(2 * 154 * 3));
}

#[test]
fn capacity_beyond_the_address_space_is_none() {
    let largest = 2u128 * ((u32::MAX as u128 * u32::MAX as u128) / 1000) * u16::MAX as u128;
    let expected = if largest <= usize::MAX as u128 { Some(largest as usize) } else { None };
    assert_eq!(buffer_capacity(u32::MAX, u32::MAX, u16::MAX), expected);
    assert_eq!(expected, None);
}

#[test]
fn frames_are_counted_from_where_the_channel_first_occurs() {
    assert_eq!(count_frames(0, 0, 2), 0);
    assert_eq!(count_frames(1, 1, 2), 0);
    assert_eq!(count_frames(2, 1, 2), 1);
    assert_eq!(count_frames(8, 0, 2), 4);
    assert_eq!(count_frames(9, 0, 2), 5);
    assert_eq!(count_frames(9, 1, 2), 4);
    assert_eq!(count_frames(7, 5, 3), 1);
}

#[test]
fn select_channel_takes_one_sample_of_each_frame() {
    let block = [10, 11, 12, 20, 21, 22, 30, 31, 32];
    assert_eq!(select_channel(&block, 0, 3), vec![10, 20, 30]);
    assert_eq!(select_channel(&block, 1, 3), vec![11, 21, 31]);
    assert_eq!(select_channel(&block, 2, 3), vec![12, 22, 32]);
    assert_eq!(select_channel(&block, 0, 1), block.to_vec());
    assert_eq!(select_channel(&[], 0, 2), Vec::<u32>::new());
}

#[test]
fn select_channel_agrees_with_skip_and_step() {
    let block: Vec<u32> = (0..23).collect();
    for channels in 1u16..6 {
        for channel in 0u16..8 {
            let expected: Vec<u32> =
                block.iter().cloned().skip(channel as usize).step_by(channels as usize).collect();
            assert_eq!(select_channel(&block, channel, channels), expected);
        }
    }
}

#[test]
fn write_channel_leaves_the_other_channels_alone() {
    let mut block = vec![1, 2, 3, 4, 5, 6];
    let underruns = write_channel(&mut block, 1, 2, &vec![Some(70), None, Some(90)]);
    assert_eq!(block, vec![1, 70, 3, SILENCE, 5, 90]);
    assert_eq!(underruns, 1);
}

#[test]
fn write_channel_stops_where_the_samples_or_the_frames_end() {
    let mut block = vec![1, 2, 3, 4, 5, 6];
    assert_eq!(write_channel(&mut block, 0, 2, &vec![None]), 1);
    assert_eq!(block, vec![0, 2, 3, 4, 5, 6]);
    let mut block = vec![1, 2, 3, 4];
    assert_eq!(write_channel(&mut block, 0, 2, &vec![Some(7), Some(8), None, None]), 0);
    assert_eq!(block, vec![7, 2, 8, 4]);
    let mut block: Vec<u32> = Vec::new();
    assert_eq!(write_channel(&mut block, 0, 1, &vec![None]), 0);
}

#[test]
fn a_capacity_that_no_buffer_can_have_is_refused() {
    assert!(matches!(create_ringbuf(48000, 0, 2), Err(PatchbayError::InvalidCapacity)));
    assert!(matches!(create_ringbuf(48000, 2, 0), Err(PatchbayError::InvalidCapacity)));
    assert!(matches!(wire(999, 1, 1), Err(PatchbayError::InvalidCapacity)));
    assert!(matches!(
        create_ringbuf(u32::MAX, u32::MAX, u16::MAX),
        Err(PatchbayError::InvalidCapacity)
    ));
    assert!(matches!(wire(u32::MAX, u32::MAX, u16::MAX), Err(PatchbayError::InvalidCapacity)));
    assert!(create_ringbuf(48000, 2, 2).is_ok());
    assert!(create_ringbuf(1000, 1, 1).is_ok());
}

#[test]
fn a_buffer_that_was_not_allocated_is_unavailable() {
    assert!(matches!(prefilled(None, 8), Err(PatchbayError::BufferUnavailable)));
    assert!(matches!(
        split(Err(PatchbayError::BufferUnavailable)),
        Err(PatchbayError::BufferUnavailable)
    ));
    assert!(matches!(
        split(Err(PatchbayError::InvalidCapacity)),
        Err(PatchbayError::InvalidCapacity)
    ));
}

#[test]
fn silence_is_filled_in_as_far_as_there_is_room() {
    let half_full = create_ringbuf(1000, 2, 2).ok();
    let (_, mut consumer) = split(prefilled(half_full, 4)).ok().unwrap();
    assert_eq!(take_samples(&mut consumer, 7), vec![Some(0); 6].into_iter().chain([None]).collect::<Vec<_>>());
    let half_full = create_ringbuf(1000, 2, 2).ok();
    let (mut producer, mut consumer) = split(prefilled(half_full, 100)).ok().unwrap();
    assert_eq!(capture(&mut producer, &[1], 0, 1), 1);
    assert_eq!(take_samples(&mut consumer, 9), vec![Some(0); 8].into_iter().chain([None]).collect::<Vec<_>>());
    let (_, mut consumer) = split(prefilled(create_ringbuf(1000, 2, 2).ok(), 0)).ok().unwrap();
    assert_eq!(take_samples(&mut consumer, 5), vec![Some(0), Some(0), Some(0), Some(0), None]);
}

#[test]
fn what_is_accepted_is_the_beginning_of_what_was_offered() {
    let (mut producer, mut consumer) = wire(1000, 2, 2).ok().unwrap();
    assert_eq!(take_samples(&mut consumer, 1), vec![Some(0)]);
    let block: Vec<u32> = vec![11, 0, 12, 0, 13, 0, 14, 0, 15, 0, 16, 0, 17, 0];
    assert_eq!(capture(&mut producer, &block, 0, 2), 2);
    assert_eq!(
        take_samples(&mut consumer, 9),
        vec![Some(0), Some(0), Some(0), Some(11), Some(12), Some(13), Some(14), Some(15), None]
    );
}

#[test]
fn a_wired_buffer_starts_half_full_of_silence() {
    let (_producer, mut consumer) = wire(1000, 2, 2).ok().unwrap();
    let taken = take_samples(&mut consumer, 6);
    assert_eq!(taken, vec![Some(0), Some(0), Some(0), Some(0), None, None]);
}

#[test]
fn the_first_block_does_not_underrun() {
    let (_producer, mut consumer) = wire(48000, 2, 2).ok().unwrap();
    let mut block = vec![9u32; 2 * 192];
    assert_eq!(playback(&mut consumer, &mut block, 1, 2), 0);
    for (i, sample) in block.iter().enumerate() {
        assert_eq!(*sample, if i % 2 == 1 { SILENCE } else { 9 });
    }
    let mut block = vec![9u32; 2];
    assert_eq!(playback(&mut consumer, &mut block, 1, 2), 1);
    assert_eq!(block, vec![9, SILENCE]);
}

#[test]
fn samples_come_out_in_the_order_in_which_they_went_in() {
    let (mut producer, mut consumer) = wire(1000, 2, 2).ok().unwrap();
    assert_eq!(take_samples(&mut consumer, 4), vec![Some(0); 4]);
    assert_eq!(capture(&mut producer, &[1, 100, 2, 200, 3, 300], 0, 2), 0);
    assert_eq!(capture(&mut producer, &[4, 400, 5, 500], 1, 2), 0);
    let mut block = vec![7u32; 12];
    assert_eq!(playback(&mut consumer, &mut block, 0, 2), 1);
    assert_eq!(block, vec![1, 7, 2, 7, 3, 7, 400, 7, 500, 7, SILENCE, 7]);
}

#[test]
fn samples_without_room_are_lost_and_counted() {
    let (mut producer, mut consumer) = wire(1000, 2, 2).ok().unwrap();
    let block: Vec<u32> = (1..=6).collect();
    assert_eq!(capture(&mut producer, &block, 0, 1), 2);
    assert_eq!(capture(&mut producer, &block, 0, 1), 6);
    assert_eq!(
        take_samples(&mut consumer, 9),
        vec![Some(0), Some(0), Some(0), Some(0), Some(1), Some(2), Some(3), Some(4), None]
    );
    assert_eq!(capture(&mut producer, &block, 3, 2), 0);
    assert_eq!(take_samples(&mut consumer, 3), vec![Some(4), Some(6), None]);
}

#[test]
fn nothing_is_lost_while_the_buffer_has_room() {
    let (mut producer, mut consumer) = wire(48000, 2, 2).ok().unwrap();
    let block: Vec<u32> = (0..384).collect();
    assert_eq!(capture(&mut producer, &block, 0, 2), 0);
    assert_eq!(capture(&mut producer, &block, 0, 2), 192);
    assert_eq!(take_samples(&mut consumer, 192), vec![Some(0); 192]);
    let captured = take_samples(&mut consumer, 193);
    for frame in 0..192 {
        assert_eq!(captured[frame], Some(2 * frame as u32));
    }
    assert_eq!(captured[192], None);
}
