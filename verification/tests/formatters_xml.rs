use kafka_json_processor::formatters::xml::pretty_xml;

#[test]
fn should_format_xml_as_pretty() {
    let original = r##"[INFO] This is a sample log message. Body: <?xml version="1.0" encoding="UTF-8"?><breakfast_menu><!-- comment --><!-- comment after comment --><food>  <name>Belgian Waffles</name><!-- comment 2 -->    <price>$5.95</price><description>Two of our famous Belgian Waffles with plenty of real maple syrup</description><calories>650</calories></food><food><name>Strawberry Belgian Waffles</name><price>$7.95</price><description>Light Belgian waffles covered with strawberries and whipped cream</description><calories>900</calories></food><food><name>Berry-Berry Belgian Waffles</name><price>$8.95</price><description>Light Belgian waffles covered with an assortment of fresh berries and whipped cream</description><calories>900</calories></food><food><name>French Toast</name><price>$4.50</price><description>Thick slices made from our homemade sourdough bread</description><calories>600</calories></food><food><name>Homestyle Breakfast</name><price>$6.95</price><description>Two eggs, bacon or sausage, toast, and our ever-popular hash browns</description><calories>950</calories></food></breakfast_menu>"##;

    let expected = format!(r##"[INFO] This is a sample log message. Body: <?xml version="1.0" encoding="UTF-8"?>
<breakfast_menu>
<!-- comment -->
<!-- comment after comment -->
  <food>{}
    <name>Belgian Waffles</name>
  <!-- comment 2 -->{}
    <price>$5.95</price>
    <description>Two of our famous Belgian Waffles with plenty of real maple syrup</description>
    <calories>650</calories>
  </food>
  <food>
    <name>Strawberry Belgian Waffles</name>
    <price>$7.95</price>
    <description>Light Belgian waffles covered with strawberries and whipped cream</description>
    <calories>900</calories>
  </food>
  <food>
    <name>Berry-Berry Belgian Waffles</name>
    <price>$8.95</price>
    <description>Light Belgian waffles covered with an assortment of fresh berries and whipped cream</description>
    <calories>900</calories>
  </food>
  <food>
    <name>French Toast</name>
    <price>$4.50</price>
    <description>Thick slices made from our homemade sourdough bread</description>
    <calories>600</calories>
  </food>
  <food>
    <name>Homestyle Breakfast</name>
    <price>$6.95</price>
    <description>Two eggs, bacon or sausage, toast, and our ever-popular hash browns</description>
    <calories>950</calories>
  </food>
</breakfast_menu>"##, "  ", "    ");

    assert_eq!(pretty_xml(original.to_string()), expected);
}

#[test]
fn should_format_xml_partially_formatted_xml() {
    let original = r##"[INFO] This is a sample log message. Body: <?xml version="1.0" encoding="UTF-8"?>
<breakfast_menu>
<!-- multiline
comment -->
  <food>
    <name>Belgian Waffles</name>
    <price>$5.95</price><description>Two of our famous Belgian Waffles with plenty of real maple syrup</description><calories>650</calories></food></breakfast_menu>"##;

    let expected = r##"[INFO] This is a sample log message. Body: <?xml version="1.0" encoding="UTF-8"?>
<breakfast_menu>
<!-- multiline
comment -->
  <food>
    <name>Belgian Waffles</name>
    <price>$5.95</price>
    <description>Two of our famous Belgian Waffles with plenty of real maple syrup</description>
    <calories>650</calories>
  </food>
</breakfast_menu>"##;

    assert_eq!(pretty_xml(original.to_string()), expected);
}

#[test]
fn should_leave_pretty_xml_intact() {
    let original = r##"[INFO] This is a sample log message. Body: <?xml version="1.0" encoding="UTF-8"?>
<breakfast_menu>
<!-- comment -->
  <food>
    <name>Belgian Waffles</name>
  <!-- comment 2 -->
    <price>$5.95</price>
    <description>Two of our famous Belgian Waffles with plenty of real maple syrup</description>
    <calories>650</calories>
  </food>
  <food>
    <name>Strawberry Belgian Waffles</name>
    <price>$7.95</price>
    <description>Light Belgian waffles covered with strawberries and whipped cream</description>
    <calories>900</calories>
  </food>
  <food>
    <name>Berry-Berry Belgian Waffles</name>
    <price>$8.95</price>
    <description>Light Belgian waffles covered with an assortment of fresh berries and whipped cream</description>
    <calories>900</calories>
  </food>
  <food>
    <name>French Toast</name>
    <price>$4.50</price>
    <description>Thick slices made from our homemade sourdough bread</description>
    <calories>600</calories>
  </food>
  <food>
    <name>Homestyle Breakfast</name>
    <price>$6.95</price>
    <description>Two eggs, bacon or sausage, toast, and our ever-popular hash browns</description>
    <calories>950</calories>
  </food>
</breakfast_menu>"##;

    assert_eq!(pretty_xml(original.to_string()), original);
}

#[test]
fn formatters_xml_without_close_tag_is_returned_unchanged() {
    let original = "plain text no tags";
    assert_eq!(pretty_xml(original.to_string()), original);
}
