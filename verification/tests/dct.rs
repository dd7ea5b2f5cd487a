use mp3dec::fdct::fdct_32;

fn fdct_input() -> [i32; 32] {
    let mut x = [0i32; 32];
    let mut i = 0usize;
    while i < 32 {
        x[i] = (((i as u64 * 2654435761) % 4000000) as i32) - 2000000;
        i += 1;
    }
    x
}

#[test]
fn fdct_32_scatters_known_values() {
    let x = fdct_input();
    let mut dest = vec![7i32; 2176];
    fdct_32(&x, &mut dest, 3, false, 9);
    let expected: [(usize, i32); 66] = [(3, -2828428), (11, -2828428), (67, 1641586), (75, 1641586), (131, 1161140), (139, 1161140), (195, -2132792), (203, -2132792), (259, 780360), (267, 780360), (323, 699862), (331, 699862), (387, -2537572), (395, -2537572), (451, -630944), (459, -630944), (515, 3695518), (523, 3695518), (579, -20286308), (587, -20286308), (643, -3980740), (651, -3980740), (707, -1764204), (715, -1764204), (771, 3325878), (779, 3325878), (835, 619020), (843, 619020), (899, -1885588), (907, -1885588), (963, 2058414), (971, 2058414), (1107, -2828428), (1115, -2828428), (1171, 3960264), (1179, 3960264), (1235, 3827764), (1243, 3827764), (1299, -6886226), (1307, -6886226), (1363, -3923144), (1371, -3923144), (1427, -7787270), (1435, -7787270), (1491, 3092044), (1499, 3092044), (1555, -3534904), (1563, -3534904), (1619, -1530734), (1627, -1530734), (1683, -313016), (1691, -313016), (1747, -392072), (1755, -392072), (1811, -3749282), (1819, -3749282), (1875, 2222278), (1883, 2222278), (1939, -2782900), (1947, -2782900), (2003, -3527690), (2011, -3527690), (2067, -1765828), (2075, -1765828), (2115, -3862544), (2123, -3862544)];
    for &(pos, val) in expected.iter() {
        assert_eq!(dest[pos], val, "position {}", pos);
    }
    // slots the call does not own keep their old contents
    assert_eq!(dest[0], 7);
    assert_eq!(dest[2175], 7);
    assert_eq!(dest[1088], 7);
}

#[test]
fn fdct_32_rescales_low_guard_inputs() {
    // gb = 0: inputs are shifted down six bits first and the stored values
    // are saturated and scaled back up; odd block writes the other half.
    let x = fdct_input();
    let mut dest = vec![7i32; 2176];
    fdct_32(&x, &mut dest, 0, true, 0);
    let expected: [(usize, i32); 66] = [(23, -2828288), (31, -2828288), (87, 3959936), (95, 3959936), (151, 3827584), (159, 3827584), (215, -6887040), (223, -6887040), (279, -3923200), (287, -3923200), (343, -7788288), (351, -7788288), (407, 3091584), (415, 3091584), (471, -3535872), (479, -3535872), (535, -1530880), (543, -1530880), (599, -313216), (607, -313216), (663, -392448), (671, -392448), (727, -3750144), (735, -3750144), (791, 2222208), (799, 2222208), (855, -2784128), (863, -2784128), (919, -3528320), (927, -3528320), (983, -1767680), (991, -1767680), (1031, -3863552), (1039, -3863552), (1088, -2828288), (1096, -2828288), (1152, 1641088), (1160, 1641088), (1216, 1161344), (1224, 1161344), (1280, -2133120), (1288, -2133120), (1344, 780288), (1352, 780288), (1408, 699520), (1416, 699520), (1472, -2537600), (1480, -2537600), (1536, -631168), (1544, -631168), (1600, 3695616), (1608, 3695616), (1664, -20286720), (1672, -20286720), (1728, -3980672), (1736, -3980672), (1792, -1764224), (1800, -1764224), (1856, 3325824), (1864, 3325824), (1920, 619008), (1928, 619008), (1984, -1885440), (1992, -1885440), (2048, 2058496), (2056, 2058496)];
    for &(pos, val) in expected.iter() {
        assert_eq!(dest[pos], val, "position {}", pos);
    }
    assert_eq!(dest[0], 7);
    assert_eq!(dest[2170], 7);
}
